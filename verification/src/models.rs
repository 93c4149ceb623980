//! Data model: repository listings, quantization groups, the download
//! registry and queue bookkeeping, and the application options.

use crate::text::{contains_seq, str_contains, str_eq, str_to_lowercase, unicode_lower};
use vstd::prelude::*;

verus! {

/// A model as listed by a search.
#[derive(Debug, Clone)]
pub struct ModelInfo {
    pub id: String,
    pub author: Option<String>,
    pub downloads: u64,
    pub likes: u64,
    pub tags: Vec<String>,
    pub last_modified: Option<String>,
}

/// Extended metadata of one model repository.
#[derive(Debug, Clone)]
pub struct ModelMetadata {
    pub model_id: String,
    pub library_name: Option<String>,
    pub pipeline_tag: Option<String>,
    pub card_data: Option<ModelCardData>,
    /// Every file of the repository (recursive listing).
    pub siblings: Vec<RepoFile>,
    pub tags: Vec<String>,
}

/// Model card fields shown with the metadata.
#[derive(Debug, Clone)]
pub struct ModelCardData {
    pub base_model: Option<String>,
    pub license: Option<String>,
    pub language: Option<Vec<String>>,
    pub datasets: Option<Vec<String>>,
}

/// Large-file-storage pointer of a repo file; `oid` is its SHA256.
#[derive(Debug, Clone)]
pub struct LfsInfo {
    pub oid: String,
    pub size: u64,
    pub pointer_size: u32,
}

/// One file of a repository listing, by its repo-relative path.
#[derive(Debug, Clone)]
pub struct RepoFile {
    pub rfilename: String,
    pub size: Option<u64>,
    pub lfs: Option<LfsInfo>,
}

/// One entry of a repository tree listing (a file or a directory).
#[derive(Debug, Clone)]
pub struct ModelFile {
    pub file_type: String,
    pub path: String,
    pub size: u64,
    pub lfs: Option<LfsInfo>,
}

/// One GGUF file inside a quantization group.
#[derive(Debug, Clone)]
pub struct QuantizationInfo {
    pub quant_type: String,
    pub filename: String,
    pub size: u64,
    pub sha256: Option<String>,
}

/// All files of one quantization type and their total size.
#[derive(Debug, Clone)]
pub struct QuantizationGroup {
    pub quant_type: String,
    pub files: Vec<QuantizationInfo>,
    pub total_size: u64,
}

/// Tree node for hierarchical file display.
#[derive(Debug)]
pub struct FileTreeNode {
    pub name: String,
    pub path: String,
    pub is_dir: bool,
    pub size: Option<u64>,
    pub children: Vec<FileTreeNode>,
    pub expanded: bool,
    pub depth: usize,
}

/// State of a tracked download.
#[derive(Debug, Clone, Copy, PartialEq, Eq, Structural)]
pub enum DownloadStatus {
    Incomplete,
    Complete,
    HashMismatch,
}

/// Validation state of an edited value.
#[derive(Debug, Clone)]
pub enum ValidationStatus {
    Valid,
    Invalid(String),
    Pending,
}

/// Content of the canvas popups.
#[derive(Debug, Clone)]
pub enum CanvasContent {
    SearchContent { query: String, suggestions: Vec<String>, selected_index: usize },
    DownloadContent { path: String, validation_status: ValidationStatus },
    OptionsContent { settings: AppOptions, focused_field: usize },
}

/// One entry of the download registry.
#[derive(Debug, Clone)]
pub struct DownloadMetadata {
    pub model_id: String,
    pub filename: String,
    pub url: String,
    pub local_path: String,
    pub total_size: u64,
    pub downloaded_size: u64,
    pub status: DownloadStatus,
    pub expected_sha256: Option<String>,
}

/// The download registry: every download ever started, with its state.
#[derive(Debug, Clone)]
pub struct DownloadRegistry {
    pub downloads: Vec<DownloadMetadata>,
}

impl DownloadRegistry {
    /// An empty registry.
    pub fn new() -> (r: DownloadRegistry)
        ensures
            r.downloads@.len() == 0,
    {
        DownloadRegistry { downloads: Vec::new() }
    }
}

impl Default for DownloadRegistry {
    fn default() -> (r: DownloadRegistry)
        ensures
            r.downloads@.len() == 0,
    {
        DownloadRegistry { downloads: Vec::new() }
    }
}

/// A copy of a registry entry.
pub fn copy_metadata(d: &DownloadMetadata) -> (r: DownloadMetadata)
    ensures
        r == *d,
{
    DownloadMetadata {
        model_id: d.model_id.clone(),
        filename: d.filename.clone(),
        url: d.url.clone(),
        local_path: d.local_path.clone(),
        total_size: d.total_size,
        downloaded_size: d.downloaded_size,
        status: d.status,
        expected_sha256: match &d.expected_sha256 {
            Some(s) => Some(s.clone()),
            None => None,
        },
    }
}

/// Completed downloads by file name (a map with text keys, kept as a list
/// of entries with distinct keys).
#[derive(Debug, Clone)]
pub struct CompleteDownloads {
    entries: Vec<(String, DownloadMetadata)>,
}

/// The map that a list of entries describes (a later entry for a key
/// replaces an earlier one).
pub open spec fn entries_map(s: Seq<(String, DownloadMetadata)>) -> Map<Seq<char>, DownloadMetadata>
    decreases s.len(),
{
    if s.len() == 0 {
        Map::<Seq<char>, DownloadMetadata>::empty()
    } else {
        entries_map(s.drop_last()).insert(s.last().0@, s.last().1)
    }
}

/// No key occurs twice.
pub open spec fn distinct_keys(s: Seq<(String, DownloadMetadata)>) -> bool {
    forall|i: int, j: int| 0 <= i < j < s.len() ==> (#[trigger] s[i]).0@ != (#[trigger] s[j]).0@
}

pub proof fn lemma_entries_map_dom(s: Seq<(String, DownloadMetadata)>, k: Seq<char>)
    ensures
        entries_map(s).dom().contains(k) <==> exists|i: int| 0 <= i < s.len() && (#[trigger] s[i]).0@ == k,
    decreases s.len(),
{
    if s.len() > 0 {
        lemma_entries_map_dom(s.drop_last(), k);
        if entries_map(s.drop_last()).dom().contains(k) {
            let i = choose|i: int| 0 <= i < s.drop_last().len() && (#[trigger] s.drop_last()[i]).0@ == k;
            assert(s[i] == s.drop_last()[i]);
        }
        if exists|i: int| 0 <= i < s.len() && (#[trigger] s[i]).0@ == k {
            let i = choose|i: int| 0 <= i < s.len() && (#[trigger] s[i]).0@ == k;
            if i < s.len() - 1 {
                assert(s.drop_last()[i] == s[i]);
            }
        }
    }
}

pub proof fn lemma_entries_map_value(s: Seq<(String, DownloadMetadata)>, i: int)
    requires
        distinct_keys(s),
        0 <= i < s.len(),
    ensures
        entries_map(s).dom().contains(s[i].0@),
        entries_map(s)[s[i].0@] == s[i].1,
    decreases s.len(),
{
    if i < s.len() - 1 {
        let t = s.drop_last();
        assert(t[i] == s[i]);
        assert(distinct_keys(t)) by {
            assert forall|a: int, b: int| 0 <= a < b < t.len() implies (#[trigger] t[a]).0@ != (#[trigger] t[b]).0@ by {
                assert(t[a] == s[a] && t[b] == s[b]);
            }
        }
        lemma_entries_map_value(t, i);
        assert(s[i].0@ != s.last().0@);
    }
}

pub proof fn lemma_entries_map_len(s: Seq<(String, DownloadMetadata)>)
    requires
        distinct_keys(s),
    ensures
        entries_map(s).dom().finite(),
        entries_map(s).dom().len() == s.len(),
    decreases s.len(),
{
    if s.len() > 0 {
        let t = s.drop_last();
        assert(distinct_keys(t)) by {
            assert forall|a: int, b: int| 0 <= a < b < t.len() implies (#[trigger] t[a]).0@ != (#[trigger] t[b]).0@ by {
                assert(t[a] == s[a] && t[b] == s[b]);
            }
        }
        lemma_entries_map_len(t);
        lemma_entries_map_dom(t, s.last().0@);
        if entries_map(t).dom().contains(s.last().0@) {
            let i = choose|i: int| 0 <= i < t.len() && (#[trigger] t[i]).0@ == s.last().0@;
            assert(s[i] == t[i]);
            assert(s[i].0@ != s[s.len() - 1].0@);
        }
    }
}

impl CompleteDownloads {
    /// The key-to-entry map.
    pub closed spec fn contents(&self) -> Map<Seq<char>, DownloadMetadata> {
        entries_map(self.entries@)
    }

    /// Keys are distinct.
    pub closed spec fn wf(&self) -> bool {
        distinct_keys(self.entries@)
    }

    /// No completed download.
    pub fn new() -> (r: CompleteDownloads)
        ensures
            r.wf(),
            r.contents() == Map::<Seq<char>, DownloadMetadata>::empty(),
    {
        CompleteDownloads { entries: Vec::new() }
    }

    /// Whether the keys are distinct (every value built by this type's
    /// functions has them so).
    pub fn is_well_formed(&self) -> (r: bool)
        ensures
            r == self.wf(),
    {
        let n = self.entries.len();
        let mut i: usize = 0;
        while i < n
            invariant
                n == self.entries@.len(),
                i <= n,
                forall|a: int, b: int| 0 <= a < b < n && a < i ==> (#[trigger] self.entries@[a]).0@ != (#[trigger] self.entries@[b]).0@,
            decreases n - i,
        {
            let mut j: usize = i + 1;
            while j < n
                invariant
                    n == self.entries@.len(),
                    i < n,
                    i + 1 <= j <= n,
                    forall|a: int, b: int| 0 <= a < b < n && a < i ==> (#[trigger] self.entries@[a]).0@ != (#[trigger] self.entries@[b]).0@,
                    forall|b: int| i < b < j ==> self.entries@[i as int].0@ != (#[trigger] self.entries@[b]).0@,
                decreases n - j,
            {
                if str_eq(self.entries[i].0.as_str(), self.entries[j].0.as_str()) {
                    return false;
                }
                j += 1;
            }
            i += 1;
        }
        true
    }

    /// Number of keys.
    pub fn len(&self) -> (r: usize)
        requires
            self.wf(),
        ensures
            self.contents().dom().finite(),
            r == self.contents().dom().len(),
    {
        proof {
            lemma_entries_map_len(self.entries@);
        }
        self.entries.len()
    }

    fn position(&self, key: &str) -> (r: Option<usize>)
        ensures
            match r {
                Some(i) => i < self.entries@.len() && self.entries@[i as int].0@ == key@,
                None => forall|i: int| 0 <= i < self.entries@.len() ==> (#[trigger] self.entries@[i]).0@ != key@,
            },
    {
        let mut i: usize = 0;
        while i < self.entries.len()
            invariant
                i <= self.entries@.len(),
                forall|j: int| 0 <= j < i ==> (#[trigger] self.entries@[j]).0@ != key@,
            decreases self.entries.len() - i,
        {
            if str_eq(self.entries[i].0.as_str(), key) {
                return Some(i);
            }
            i += 1;
        }
        None
    }

    /// Whether `key` has an entry.
    pub fn contains_key(&self, key: &str) -> (r: bool)
        ensures
            r == self.contents().dom().contains(key@),
    {
        proof {
            lemma_entries_map_dom(self.entries@, key@);
        }
        self.position(key).is_some()
    }

    /// The entry for `key`.
    pub fn get(&self, key: &str) -> (r: Option<&DownloadMetadata>)
        requires
            self.wf(),
        ensures
            match r {
                Some(d) => self.contents().dom().contains(key@) && *d == self.contents()[key@],
                None => !self.contents().dom().contains(key@),
            },
    {
        proof {
            lemma_entries_map_dom(self.entries@, key@);
        }
        match self.position(key) {
            Some(i) => {
                proof {
                    lemma_entries_map_value(self.entries@, i as int);
                }
                Some(&self.entries[i].1)
            },
            None => None,
        }
    }

    /// Sets the entry for `key` (replacing any earlier one).
    pub fn insert(&mut self, key: String, value: DownloadMetadata)
        requires
            old(self).wf(),
        ensures
            final(self).wf(),
            final(self).contents() == old(self).contents().insert(key@, value),
    {
        let ghost old_entries = self.entries@;
        match self.position(key.as_str()) {
            Some(i) => {
                let ghost k = key@;
                self.entries.set(i, (key, value));
                proof {
                    let s = self.entries@;
                    assert(distinct_keys(s)) by {
                        assert forall|a: int, b: int| 0 <= a < b < s.len() implies (#[trigger] s[a]).0@ != (#[trigger] s[b]).0@ by {
                            if a != i && b != i {
                                assert(s[a] == old_entries[a] && s[b] == old_entries[b]);
                            } else if a == i {
                                assert(s[b] == old_entries[b]);
                                assert(old_entries[a].0@ == k);
                            } else {
                                assert(s[a] == old_entries[a]);
                                assert(old_entries[b].0@ == k);
                            }
                        }
                    }
                    assert forall|kk: Seq<char>| #[trigger] entries_map(s).dom().contains(kk) == entries_map(old_entries).insert(k, value).dom().contains(kk) by {
                        lemma_entries_map_dom(s, kk);
                        lemma_entries_map_dom(old_entries, kk);
                        if exists|j: int| 0 <= j < old_entries.len() && (#[trigger] old_entries[j]).0@ == kk {
                            let j = choose|j: int| 0 <= j < old_entries.len() && (#[trigger] old_entries[j]).0@ == kk;
                            if j != i {
                                assert(s[j] == old_entries[j]);
                            } else {
                                assert(s[j].0@ == kk);
                            }
                        }
                        if exists|j: int| 0 <= j < s.len() && (#[trigger] s[j]).0@ == kk {
                            let j = choose|j: int| 0 <= j < s.len() && (#[trigger] s[j]).0@ == kk;
                            if j != i {
                                assert(s[j] == old_entries[j]);
                            }
                        }
                    }
                    assert forall|kk: Seq<char>| #[trigger] entries_map(s).dom().contains(kk) implies entries_map(s)[kk] == entries_map(old_entries).insert(k, value)[kk] by {
                        lemma_entries_map_dom(s, kk);
                        let j = choose|j: int| 0 <= j < s.len() && (#[trigger] s[j]).0@ == kk;
                        lemma_entries_map_value(s, j);
                        if j != i {
                            assert(s[j] == old_entries[j]);
                            lemma_entries_map_value(old_entries, j);
                        }
                    }
                    assert(entries_map(s) =~= entries_map(old_entries).insert(k, value));
                }
            },
            None => {
                self.entries.push((key, value));
                proof {
                    let s = self.entries@;
                    assert(s.drop_last() =~= old_entries);
                    assert(distinct_keys(s)) by {
                        assert forall|a: int, b: int| 0 <= a < b < s.len() implies (#[trigger] s[a]).0@ != (#[trigger] s[b]).0@ by {
                            if b < s.len() - 1 {
                                assert(s[a] == old_entries[a] && s[b] == old_entries[b]);
                            } else {
                                assert(s[a] == old_entries[a]);
                            }
                        }
                    }
                }
            },
        }
    }
}

/// Caches of API results, keyed by model ID or search parameters.
#[derive(Debug, Default)]
pub struct ApiCache {
    pub metadata: std::collections::HashMap<String, ModelMetadata>,
    pub quantizations: std::collections::HashMap<String, Vec<QuantizationGroup>>,
    pub file_trees: std::collections::HashMap<String, FileTreeNode>,
    pub searches: std::collections::HashMap<SearchKey, Vec<ModelInfo>>,
}

/// Interactive elements of the canvas popups.
#[derive(Debug, Clone, Copy, PartialEq, Eq, Structural)]
pub enum CanvasElement {
    SearchField,
    /// Index into the suggestions.
    SearchSuggestion(usize),
    DownloadButton,
    CancelButton,
    /// Index of the option field.
    OptionField(usize),
    /// Index of the path segment.
    PathSegment(usize),
    ValidationIndicator,
}

/// Pointer state over the canvas popups.
#[derive(Debug, Clone, Copy, PartialEq, Eq, Structural)]
pub struct CanvasHoverState {
    pub in_canvas_area: bool,
    pub hover_element: Option<CanvasElement>,
}

/// How much visual feedback the popups give.
#[derive(Debug, Clone, Copy, PartialEq, Eq, Structural)]
pub enum FeedbackLevel {
    Minimal,
    Standard,
    Enhanced,
}

/// Which popup is open.
#[derive(Debug, Clone, PartialEq, Eq)]
pub enum PopupMode {
    /// No popup is open.
    Closed,
    DownloadPath,
    ResumeDownload,
    Options,
    AuthError { model_url: String },
    SearchPopup,
    ModelVisualization,
    ModelComparison,
    NetworkActivity,
    PerformanceAnalytics,
    EnhancedVerification,
}

/// Filter presets for quick filter combinations.
#[derive(Debug, Clone, Copy, PartialEq, Eq, Structural)]
pub enum FilterPreset {
    NoFilters,
    Popular,
    HighlyRated,
    Recent,
}

/// Keyboard input mode.
#[derive(Debug, Clone, Copy, PartialEq, Eq, Structural)]
pub enum InputMode {
    Normal,
    Editing,
}

/// Sort field options for model search.
#[derive(Debug, Clone, Copy, PartialEq, Eq, Hash, Structural)]
pub enum SortField {
    Downloads,
    Likes,
    Modified,
    Name,
}

/// Sort direction.
#[derive(Debug, Clone, Copy, PartialEq, Eq, Hash, Structural)]
pub enum SortDirection {
    Ascending,
    Descending,
}

/// The focused pane of the interface.
#[derive(Debug, Clone, Copy, PartialEq, Eq, Structural)]
pub enum FocusedPane {
    Models,
    QuantizationGroups,
    QuantizationFiles,
    ModelMetadata,
    FileTree,
}

/// Model display mode.
#[derive(Debug, Clone, Copy, PartialEq, Eq, Structural)]
pub enum ModelDisplayMode {
    Gguf,
    Standard,
}

/// Search cache key that includes all filter parameters.
#[derive(Debug, Clone, Hash, PartialEq, Eq)]
pub struct SearchKey {
    pub query: String,
    pub sort_field: SortField,
    pub sort_direction: SortDirection,
    pub min_downloads: u64,
    pub min_likes: u64,
}

/// Item waiting for hash verification.
#[derive(Debug, Clone)]
pub struct VerificationQueueItem {
    pub filename: String,
    pub local_path: String,
    pub expected_sha256: String,
    pub total_size: u64,
    pub is_manual: bool,
}

/// A queued download as the activity display lists it.
#[derive(Debug, Clone)]
pub struct QueueItemSummary {
    pub filename: String,
    pub total_size: u64,
}

/// Outcome of one processed download.
#[derive(Debug, Clone)]
pub enum FileOutcome {
    Complete { filename: String, bytes: u64 },
    AlreadyExists { filename: String, bytes: u64 },
    AuthRequired { model_id: String },
    Failed { filename: String, reason: String },
}

/// Outcome of one hash verification.
#[derive(Debug, Clone)]
pub enum VerifyOutcome {
    /// The hash matched.
    Verified { filename: String },
    Mismatch { filename: String, expected_sha256: String, actual_sha256: String },
    Error { filename: String, reason: String },
    Missing { filename: String },
}

/// Number of queued downloads and their bytes.
#[derive(Debug, Clone, Copy, PartialEq, Eq, Structural)]
pub struct QueueState {
    pub size: usize,
    pub bytes: u64,
}

/// `a - b`, or 0 when `b > a`.
pub open spec fn sat_sub(a: int, b: int) -> int {
    if a >= b {
        a - b
    } else {
        0
    }
}

/// `a + b`, or `max` when the sum exceeds it.
pub open spec fn sat_add(a: int, b: int, max: int) -> int {
    if a + b <= max {
        a + b
    } else {
        max
    }
}

impl QueueState {
    pub fn new(size: usize, bytes: u64) -> (r: QueueState)
        ensures
            r.size == size,
            r.bytes == bytes,
    {
        QueueState { size, bytes }
    }

    /// Adds `count` files of `bytes` bytes in total (saturating).
    pub fn add(&mut self, count: usize, bytes: u64)
        ensures
            final(self).size == sat_add(old(self).size as int, count as int, usize::MAX as int),
            final(self).bytes == sat_add(old(self).bytes as int, bytes as int, u64::MAX as int),
    {
        self.size = self.size.saturating_add(count);
        self.bytes = self.bytes.saturating_add(bytes);
    }

    /// Removes `count` files of `bytes` bytes in total, stopping at zero.
    pub fn remove(&mut self, count: usize, bytes: u64)
        ensures
            final(self).size == sat_sub(old(self).size as int, count as int),
            final(self).bytes == sat_sub(old(self).bytes as int, bytes as int),
    {
        self.size = self.size.saturating_sub(count);
        self.bytes = self.bytes.saturating_sub(bytes);
    }

    /// No file is queued.
    pub fn is_empty(&self) -> (r: bool)
        ensures
            r == (self.size == 0),
    {
        self.size == 0
    }
}

/// Application options/settings.
#[derive(Debug, Clone)]
pub struct AppOptions {
    pub default_directory: String,
    pub hf_token: Option<String>,
    pub concurrent_threads: usize,
    pub num_chunks: usize,
    pub min_chunk_size: u64,
    pub max_chunk_size: u64,
    pub max_retries: u32,
    pub download_timeout_secs: u64,
    pub retry_delay_secs: u64,
    pub progress_update_interval_ms: u64,
    pub verification_on_completion: bool,
    pub concurrent_verifications: usize,
    pub verification_buffer_size: usize,
    pub verification_update_interval: usize,
    pub selected_field: usize,
    pub editing_directory: bool,
    pub editing_token: bool,
    pub default_sort_field: SortField,
    pub default_sort_direction: SortDirection,
    pub default_min_downloads: u64,
    pub default_min_likes: u64,
}

impl AppOptions {
    /// The default options for a user whose home directory is `home` and
    /// whose `HF_TOKEN` environment value is `env_token`: downloads go to
    /// `<home>/models`, an empty token counts as none.
    pub fn defaults_for(home: &str, env_token: Option<String>) -> (r: AppOptions)
        ensures
            r.default_directory@ == home@ + seq!['/', 'm', 'o', 'd', 'e', 'l', 's'],
            r.hf_token is Some <==> (env_token is Some && env_token->0@.len() > 0),
            r.hf_token is Some ==> r.hf_token->0@ == env_token->0@,
            r.concurrent_threads == 8,
            r.num_chunks == 20,
            r.min_chunk_size == 5 * 1024 * 1024,
            r.max_chunk_size == 100 * 1024 * 1024,
            r.max_retries == 5,
            r.download_timeout_secs == 300,
            r.retry_delay_secs == 1,
            r.progress_update_interval_ms == 200,
            r.verification_on_completion,
            r.concurrent_verifications == 2,
            r.verification_buffer_size == 128 * 1024,
            r.verification_update_interval == 100,
            r.selected_field == 0,
            !r.editing_directory,
            !r.editing_token,
            r.default_sort_field == SortField::Downloads,
            r.default_sort_direction == SortDirection::Descending,
            r.default_min_downloads == 0,
            r.default_min_likes == 0,
    {
        let mut dir = String::from_str(home);
        let suffix = "/models";
        proof {
            reveal_strlit("/models");
        }
        dir.append(suffix);
        let hf_token = match env_token {
            Some(t) => if t.as_str().is_empty() {
                None
            } else {
                Some(t)
            },
            None => None,
        };
        AppOptions {
            default_directory: dir,
            hf_token,
            concurrent_threads: 8,
            num_chunks: 20,
            min_chunk_size: 5 * 1024 * 1024,
            max_chunk_size: 100 * 1024 * 1024,
            max_retries: 5,
            download_timeout_secs: 300,
            retry_delay_secs: 1,
            progress_update_interval_ms: 200,
            verification_on_completion: true,
            concurrent_verifications: 2,
            verification_buffer_size: 128 * 1024,
            verification_update_interval: 100,
            selected_field: 0,
            editing_directory: false,
            editing_token: false,
            default_sort_field: SortField::Downloads,
            default_sort_direction: SortDirection::Descending,
            default_min_downloads: 0,
            default_min_likes: 0,
        }
    }
}

// ---------------------------------------------------------------------------
// Model architecture types
// ---------------------------------------------------------------------------

/// Model architecture types for visualization.
#[derive(Debug, Clone, Copy, PartialEq, Eq, Hash, Structural)]
pub enum ModelType {
    Transformer,
    CNN,
    GPT,
    LSTM,
    RNN,
    BERT,
    T5,
    Whisper,
    StableDiffusion,
    ResNet,
    VGG,
    Inception,
    MobileNet,
    EfficientNet,
    VisionTransformer,
    GAN,
    Diffusion,
    Autoencoder,
    VAE,
    Seq2Seq,
    EncoderDecoder,
    DecisionTree,
    RandomForest,
    SVM,
    XGBoost,
    LightGBM,
    CatBoost,
    Custom,
    Unknown,
}

pub open spec fn display_name_of(t: ModelType) -> Seq<char> {
    match t {
        ModelType::Transformer => "Transformer"@,
        ModelType::CNN => "CNN"@,
        ModelType::GPT => "GPT"@,
        ModelType::LSTM => "LSTM"@,
        ModelType::RNN => "RNN"@,
        ModelType::BERT => "BERT"@,
        ModelType::T5 => "T5"@,
        ModelType::Whisper => "Whisper"@,
        ModelType::StableDiffusion => "Stable Diffusion"@,
        ModelType::ResNet => "ResNet"@,
        ModelType::VGG => "VGG"@,
        ModelType::Inception => "Inception"@,
        ModelType::MobileNet => "MobileNet"@,
        ModelType::EfficientNet => "EfficientNet"@,
        ModelType::VisionTransformer => "Vision Transformer"@,
        ModelType::GAN => "GAN"@,
        ModelType::Diffusion => "Diffusion"@,
        ModelType::Autoencoder => "Autoencoder"@,
        ModelType::VAE => "VAE"@,
        ModelType::Seq2Seq => "Seq2Seq"@,
        ModelType::EncoderDecoder => "Encoder-Decoder"@,
        ModelType::DecisionTree => "Decision Tree"@,
        ModelType::RandomForest => "Random Forest"@,
        ModelType::SVM => "SVM"@,
        ModelType::XGBoost => "XGBoost"@,
        ModelType::LightGBM => "LightGBM"@,
        ModelType::CatBoost => "CatBoost"@,
        ModelType::Custom => "Custom"@,
        ModelType::Unknown => "Unknown"@,
    }
}

pub open spec fn category_of(t: ModelType) -> Seq<char> {
    match t {
        ModelType::Transformer | ModelType::BERT | ModelType::T5 | ModelType::VisionTransformer => "Attention"@,
        ModelType::CNN | ModelType::ResNet | ModelType::VGG | ModelType::Inception | ModelType::MobileNet
        | ModelType::EfficientNet => "CNN"@,
        ModelType::GPT | ModelType::Whisper | ModelType::StableDiffusion | ModelType::Diffusion => "Generative"@,
        ModelType::LSTM | ModelType::RNN | ModelType::Seq2Seq | ModelType::EncoderDecoder => "Sequential"@,
        ModelType::GAN | ModelType::Autoencoder | ModelType::VAE => "Unsupervised"@,
        ModelType::DecisionTree | ModelType::RandomForest | ModelType::SVM | ModelType::XGBoost
        | ModelType::LightGBM | ModelType::CatBoost => "Traditional ML"@,
        ModelType::Custom => "Custom"@,
        ModelType::Unknown => "Unknown"@,
    }
}

pub open spec fn transformer_family(t: ModelType) -> bool {
    match t {
        ModelType::Transformer | ModelType::BERT | ModelType::T5 | ModelType::GPT | ModelType::VisionTransformer
        | ModelType::Whisper => true,
        _ => false,
    }
}

pub open spec fn cnn_family(t: ModelType) -> bool {
    match t {
        ModelType::CNN | ModelType::ResNet | ModelType::VGG | ModelType::Inception | ModelType::MobileNet
        | ModelType::EfficientNet => true,
        _ => false,
    }
}

pub open spec fn generative_family(t: ModelType) -> bool {
    match t {
        ModelType::GPT | ModelType::StableDiffusion | ModelType::Diffusion | ModelType::GAN | ModelType::VAE
        | ModelType::Whisper => true,
        _ => false,
    }
}

impl ModelType {
    /// Display name of the model type.
    pub fn display_name(self) -> (r: &'static str)
        ensures
            r@ == display_name_of(self),
    {
        match self {
            ModelType::Transformer => "Transformer",
            ModelType::CNN => "CNN",
            ModelType::GPT => "GPT",
            ModelType::LSTM => "LSTM",
            ModelType::RNN => "RNN",
            ModelType::BERT => "BERT",
            ModelType::T5 => "T5",
            ModelType::Whisper => "Whisper",
            ModelType::StableDiffusion => "Stable Diffusion",
            ModelType::ResNet => "ResNet",
            ModelType::VGG => "VGG",
            ModelType::Inception => "Inception",
            ModelType::MobileNet => "MobileNet",
            ModelType::EfficientNet => "EfficientNet",
            ModelType::VisionTransformer => "Vision Transformer",
            ModelType::GAN => "GAN",
            ModelType::Diffusion => "Diffusion",
            ModelType::Autoencoder => "Autoencoder",
            ModelType::VAE => "VAE",
            ModelType::Seq2Seq => "Seq2Seq",
            ModelType::EncoderDecoder => "Encoder-Decoder",
            ModelType::DecisionTree => "Decision Tree",
            ModelType::RandomForest => "Random Forest",
            ModelType::SVM => "SVM",
            ModelType::XGBoost => "XGBoost",
            ModelType::LightGBM => "LightGBM",
            ModelType::CatBoost => "CatBoost",
            ModelType::Custom => "Custom",
            ModelType::Unknown => "Unknown",
        }
    }

    /// Architecture family of the model type.
    pub fn category(self) -> (r: &'static str)
        ensures
            r@ == category_of(self),
    {
        match self {
            ModelType::Transformer | ModelType::BERT | ModelType::T5 | ModelType::VisionTransformer => "Attention",
            ModelType::CNN | ModelType::ResNet | ModelType::VGG | ModelType::Inception | ModelType::MobileNet
            | ModelType::EfficientNet => "CNN",
            ModelType::GPT | ModelType::Whisper | ModelType::StableDiffusion | ModelType::Diffusion => "Generative",
            ModelType::LSTM | ModelType::RNN | ModelType::Seq2Seq | ModelType::EncoderDecoder => "Sequential",
            ModelType::GAN | ModelType::Autoencoder | ModelType::VAE => "Unsupervised",
            ModelType::DecisionTree | ModelType::RandomForest | ModelType::SVM | ModelType::XGBoost
            | ModelType::LightGBM | ModelType::CatBoost => "Traditional ML",
            ModelType::Custom => "Custom",
            ModelType::Unknown => "Unknown",
        }
    }

    /// Whether the architecture is attention-based.
    pub fn is_transformer_based(self) -> (r: bool)
        ensures
            r == transformer_family(self),
    {
        matches!(self, ModelType::Transformer | ModelType::BERT | ModelType::T5 | ModelType::GPT
            | ModelType::VisionTransformer | ModelType::Whisper)
    }

    /// Whether the architecture is convolutional.
    pub fn is_cnn_based(self) -> (r: bool)
        ensures
            r == cnn_family(self),
    {
        matches!(self, ModelType::CNN | ModelType::ResNet | ModelType::VGG | ModelType::Inception
            | ModelType::MobileNet | ModelType::EfficientNet)
    }

    /// Whether the architecture generates content.
    pub fn is_generative(self) -> (r: bool)
        ensures
            r == generative_family(self),
    {
        matches!(self, ModelType::GPT | ModelType::StableDiffusion | ModelType::Diffusion | ModelType::GAN
            | ModelType::VAE | ModelType::Whisper)
    }
}

/// The lowercased model ID names `sub`, or a lowercased tag is `tag`.
pub open spec fn names(idl: Seq<char>, tl: Seq<Seq<char>>, sub: Seq<char>, tag: Seq<char>) -> bool {
    contains_seq(idl, sub) || tl.contains(tag)
}

/// Model family named by the lowercased ID or tags, checked in order.
pub open spec fn family_of(idl: Seq<char>, tl: Seq<Seq<char>>) -> Option<ModelType> {
    if contains_seq(idl, "gpt"@) || contains_seq(idl, "gpt-"@) || tl.contains("gpt"@) {
        Some(ModelType::GPT)
    } else if names(idl, tl, "bert"@, "bert"@) {
        Some(ModelType::BERT)
    } else if names(idl, tl, "t5"@, "t5"@) {
        Some(ModelType::T5)
    } else if names(idl, tl, "whisper"@, "whisper"@) {
        Some(ModelType::Whisper)
    } else if names(idl, tl, "stable-diffusion"@, "stable-diffusion"@) {
        Some(ModelType::StableDiffusion)
    } else if names(idl, tl, "diffusion"@, "diffusion"@) {
        Some(ModelType::Diffusion)
    } else if contains_seq(idl, "vit"@) || names(idl, tl, "vision-transformer"@, "vision-transformer"@) {
        Some(ModelType::VisionTransformer)
    } else if names(idl, tl, "resnet"@, "resnet"@) {
        Some(ModelType::ResNet)
    } else if names(idl, tl, "vgg"@, "vgg"@) {
        Some(ModelType::VGG)
    } else if names(idl, tl, "inception"@, "inception"@) {
        Some(ModelType::Inception)
    } else if names(idl, tl, "mobilenet"@, "mobilenet"@) {
        Some(ModelType::MobileNet)
    } else if names(idl, tl, "efficientnet"@, "efficientnet"@) {
        Some(ModelType::EfficientNet)
    } else if names(idl, tl, "lstm"@, "lstm"@) {
        Some(ModelType::LSTM)
    } else if names(idl, tl, "rnn"@, "rnn"@) {
        Some(ModelType::RNN)
    } else if names(idl, tl, "gan"@, "gan"@) {
        Some(ModelType::GAN)
    } else if names(idl, tl, "autoencoder"@, "autoencoder"@) {
        Some(ModelType::Autoencoder)
    } else if names(idl, tl, "vae"@, "vae"@) {
        Some(ModelType::VAE)
    } else {
        None
    }
}

/// Model type implied by a pipeline tag of a `transformers` model.
pub open spec fn transformers_pipeline_type(p: Option<Seq<char>>) -> ModelType {
    match p {
        None => ModelType::Transformer,
        Some(p) => if p == "text-generation"@ {
            ModelType::GPT
        } else if p == "feature-extraction"@ || p == "fill-mask"@ {
            ModelType::BERT
        } else if p == "text2text-generation"@ {
            ModelType::T5
        } else if p == "automatic-speech-recognition"@ {
            ModelType::Whisper
        } else if p == "image-to-text"@ {
            ModelType::VisionTransformer
        } else {
            ModelType::Transformer
        },
    }
}

/// Model type implied by a pipeline tag when no library is named.
pub open spec fn pipeline_type(p: Seq<char>) -> ModelType {
    if p == "text-generation"@ {
        ModelType::GPT
    } else if p == "feature-extraction"@ || p == "fill-mask"@ {
        ModelType::BERT
    } else if p == "text2text-generation"@ {
        ModelType::T5
    } else if p == "automatic-speech-recognition"@ {
        ModelType::Whisper
    } else if p == "image-classification"@ {
        ModelType::CNN
    } else if p == "image-to-image"@ || p == "text-to-image"@ {
        ModelType::StableDiffusion
    } else if p == "image-to-text"@ {
        ModelType::VisionTransformer
    } else {
        ModelType::Unknown
    }
}

/// Model type implied by the (lowercased) library name.
pub open spec fn library_type(libl: Seq<char>, idl: Seq<char>, p: Option<Seq<char>>) -> ModelType {
    if libl == "transformers"@ {
        transformers_pipeline_type(p)
    } else if libl == "diffusers"@ {
        ModelType::StableDiffusion
    } else if libl == "timm"@ {
        if contains_seq(idl, "resnet"@) {
            ModelType::ResNet
        } else if contains_seq(idl, "vgg"@) {
            ModelType::VGG
        } else if contains_seq(idl, "efficientnet"@) {
            ModelType::EfficientNet
        } else {
            ModelType::CNN
        }
    } else if libl == "sentence-transformers"@ {
        ModelType::Transformer
    } else {
        ModelType::Unknown
    }
}

/// Model type from the lowercased ID and tags, the library name and the
/// pipeline tag: a family named by the ID or a tag wins, then the library
/// (refined by the pipeline tag), then the pipeline tag, then file
/// extensions in the ID.
pub open spec fn detected_type(idl: Seq<char>, tl: Seq<Seq<char>>, lib: Option<Seq<char>>, p: Option<Seq<char>>) -> ModelType {
    match family_of(idl, tl) {
        Some(t) => t,
        None => match lib {
            Some(l) => library_type(unicode_lower(l), idl, p),
            None => match p {
                Some(p) => pipeline_type(p),
                None => if contains_seq(idl, ".safetensors"@) || contains_seq(idl, ".bin"@) {
                    ModelType::Transformer
                } else if contains_seq(idl, ".onnx"@) {
                    ModelType::CNN
                } else {
                    ModelType::Unknown
                },
            },
        },
    }
}

pub open spec fn lowered_all(tags: Seq<String>) -> Seq<Seq<char>> {
    tags.map_values(|t: String| unicode_lower(t@))
}

pub open spec fn opt_view(o: Option<&str>) -> Option<Seq<char>> {
    match o {
        Some(s) => Some(s@),
        None => None,
    }
}

fn has_tag(tl: &Vec<String>, tag: &str) -> (r: bool)
    ensures
        r == tl@.map_values(|t: String| t@).contains(tag@),
{
    let ghost v = tl@.map_values(|t: String| t@);
    let mut i: usize = 0;
    while i < tl.len()
        invariant
            i <= tl@.len(),
            v == tl@.map_values(|t: String| t@),
            forall|j: int| 0 <= j < i ==> v[j] != tag@,
        decreases tl.len() - i,
    {
        if str_eq(tl[i].as_str(), tag) {
            assert(v[i as int] == tag@);
            return true;
        }
        i += 1;
    }
    false
}

fn names_exec(idl: &str, tl: &Vec<String>, sub: &str, tag: &str) -> (r: bool)
    ensures
        r == names(idl@, tl@.map_values(|t: String| t@), sub@, tag@),
{
    str_contains(idl, sub) || has_tag(tl, tag)
}

fn family_exec(idl: &str, tl: &Vec<String>) -> (r: Option<ModelType>)
    ensures
        r == family_of(idl@, tl@.map_values(|t: String| t@)),
{
    if str_contains(idl, "gpt") || str_contains(idl, "gpt-") || has_tag(tl, "gpt") {
        Some(ModelType::GPT)
    } else if names_exec(idl, tl, "bert", "bert") {
        Some(ModelType::BERT)
    } else if names_exec(idl, tl, "t5", "t5") {
        Some(ModelType::T5)
    } else if names_exec(idl, tl, "whisper", "whisper") {
        Some(ModelType::Whisper)
    } else if names_exec(idl, tl, "stable-diffusion", "stable-diffusion") {
        Some(ModelType::StableDiffusion)
    } else if names_exec(idl, tl, "diffusion", "diffusion") {
        Some(ModelType::Diffusion)
    } else if str_contains(idl, "vit") || names_exec(idl, tl, "vision-transformer", "vision-transformer") {
        Some(ModelType::VisionTransformer)
    } else if names_exec(idl, tl, "resnet", "resnet") {
        Some(ModelType::ResNet)
    } else if names_exec(idl, tl, "vgg", "vgg") {
        Some(ModelType::VGG)
    } else if names_exec(idl, tl, "inception", "inception") {
        Some(ModelType::Inception)
    } else if names_exec(idl, tl, "mobilenet", "mobilenet") {
        Some(ModelType::MobileNet)
    } else if names_exec(idl, tl, "efficientnet", "efficientnet") {
        Some(ModelType::EfficientNet)
    } else if names_exec(idl, tl, "lstm", "lstm") {
        Some(ModelType::LSTM)
    } else if names_exec(idl, tl, "rnn", "rnn") {
        Some(ModelType::RNN)
    } else if names_exec(idl, tl, "gan", "gan") {
        Some(ModelType::GAN)
    } else if names_exec(idl, tl, "autoencoder", "autoencoder") {
        Some(ModelType::Autoencoder)
    } else if names_exec(idl, tl, "vae", "vae") {
        Some(ModelType::VAE)
    } else {
        None
    }
}

fn transformers_pipeline_exec(p: Option<&str>) -> (r: ModelType)
    ensures
        r == transformers_pipeline_type(opt_view(p)),
{
    match p {
        None => ModelType::Transformer,
        Some(p) => if str_eq(p, "text-generation") {
            ModelType::GPT
        } else if str_eq(p, "feature-extraction") || str_eq(p, "fill-mask") {
            ModelType::BERT
        } else if str_eq(p, "text2text-generation") {
            ModelType::T5
        } else if str_eq(p, "automatic-speech-recognition") {
            ModelType::Whisper
        } else if str_eq(p, "image-to-text") {
            ModelType::VisionTransformer
        } else {
            ModelType::Transformer
        },
    }
}

fn pipeline_exec(p: &str) -> (r: ModelType)
    ensures
        r == pipeline_type(p@),
{
    if str_eq(p, "text-generation") {
        ModelType::GPT
    } else if str_eq(p, "feature-extraction") || str_eq(p, "fill-mask") {
        ModelType::BERT
    } else if str_eq(p, "text2text-generation") {
        ModelType::T5
    } else if str_eq(p, "automatic-speech-recognition") {
        ModelType::Whisper
    } else if str_eq(p, "image-classification") {
        ModelType::CNN
    } else if str_eq(p, "image-to-image") || str_eq(p, "text-to-image") {
        ModelType::StableDiffusion
    } else if str_eq(p, "image-to-text") {
        ModelType::VisionTransformer
    } else {
        ModelType::Unknown
    }
}

fn library_exec(libl: &str, idl: &str, p: Option<&str>) -> (r: ModelType)
    ensures
        r == library_type(libl@, idl@, opt_view(p)),
{
    if str_eq(libl, "transformers") {
        transformers_pipeline_exec(p)
    } else if str_eq(libl, "diffusers") {
        ModelType::StableDiffusion
    } else if str_eq(libl, "timm") {
        if str_contains(idl, "resnet") {
            ModelType::ResNet
        } else if str_contains(idl, "vgg") {
            ModelType::VGG
        } else if str_contains(idl, "efficientnet") {
            ModelType::EfficientNet
        } else {
            ModelType::CNN
        }
    } else if str_eq(libl, "sentence-transformers") {
        ModelType::Transformer
    } else {
        ModelType::Unknown
    }
}

/// Detects the model type from the model ID, tags, library name and
/// pipeline tag (ID and tags compared in lowercase).
pub fn detect_model_type(model_id: &str, tags: &[String], library_name: Option<&str>, pipeline_tag: Option<&str>) -> (r: ModelType)
    ensures
        r == detected_type(unicode_lower(model_id@), lowered_all(tags@), opt_view(library_name), opt_view(pipeline_tag)),
{
    let idl = str_to_lowercase(model_id);
    let mut tl: Vec<String> = Vec::new();
    let mut i: usize = 0;
    while i < tags.len()
        invariant
            i <= tags@.len(),
            tl@.map_values(|t: String| t@) == lowered_all(tags@.take(i as int)),
        decreases tags.len() - i,
    {
        let ghost before = tl@;
        tl.push(str_to_lowercase(tags[i].as_str()));
        proof {
            assert(tl@.map_values(|t: String| t@) =~= before.map_values(|t: String| t@).push(tl@.last()@));
            assert(lowered_all(tags@.take(i + 1)) =~= lowered_all(tags@.take(i as int)).push(
                unicode_lower(tags@[i as int]@),
            ));
        }
        i += 1;
    }
    assert(tags@.take(tags@.len() as int) =~= tags@);
    match family_exec(idl.as_str(), &tl) {
        Some(t) => t,
        None => match library_name {
            Some(lib) => {
                let libl = str_to_lowercase(lib);
                library_exec(libl.as_str(), idl.as_str(), pipeline_tag)
            },
            None => match pipeline_tag {
                Some(p) => pipeline_exec(p),
                None => if str_contains(idl.as_str(), ".safetensors") || str_contains(idl.as_str(), ".bin") {
                    ModelType::Transformer
                } else if str_contains(idl.as_str(), ".onnx") {
                    ModelType::CNN
                } else {
                    ModelType::Unknown
                },
            },
        },
    }
}

} // verus!
