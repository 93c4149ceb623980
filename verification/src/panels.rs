//! The text of the browsing interface's panels: result rows, titles, the
//! status bar, model information, file-tree and quantization rows.  Each
//! row comes in the pieces that the screen styles apart.

use crate::models::{AppOptions, CompleteDownloads, FilterPreset, FileTreeNode, ModelInfo, ModelMetadata, QuantizationGroup, QuantizationInfo, RepoFile, SortDirection, SortField};
use crate::render::{right_aligned, truncate_filename, truncated_filename};
use crate::report::left_aligned;
use crate::text::{
    byte_cut, chars_in_bytes, copy_range, decimal, has_byte_cut, joined_with, lemma_split_nonempty, lemma_utf8_prefix, push_chars,
    split_chars, split_on, to_chars, utf8_len,
};
use crate::tree::{count_files, files_in};
use crate::ui::{preset_name, App};
use crate::utils::{format_number, format_size, number_text, size_text};
use vstd::prelude::*;

verus! {

fn put(out: &mut String, s: &str)
    ensures
        final(out)@ == old(out)@ + s@,
{
    out.append(s);
}

fn put_dec(out: &mut String, n: u64)
    ensures
        final(out)@ == old(out)@ + decimal(n as nat),
{
    let d = crate::text::decimal_string(n);
    out.append(d.as_str());
}

proof fn lemma_join_push(parts: Seq<Seq<char>>, sep: Seq<char>, x: Seq<char>)
    ensures
        joined_with(parts.push(x), sep) == (if parts.len() == 0 { x } else { joined_with(parts, sep) + sep + x }),
{
    assert(parts.push(x).drop_last() =~= parts);
}

/// The first `n` of `items` joined with `sep`.
fn join_first(items: &Vec<String>, n: usize, sep: &str) -> (r: String)
    requires
        n <= items@.len(),
    ensures
        r@ == joined_with(items@.take(n as int).map_values(|t: String| t@), sep@),
{
    let mut out = String::new();
    let mut i: usize = 0;
    while i < n
        invariant
            i <= n <= items@.len(),
            out@ == joined_with(items@.take(i as int).map_values(|t: String| t@), sep@),
        decreases n - i,
    {
        proof {
            let prev = items@.take(i as int).map_values(|t: String| t@);
            lemma_join_push(prev, sep@, items@[i as int]@);
            assert(items@.take(i + 1).map_values(|t: String| t@) =~= prev.push(items@[i as int]@));
        }
        if i > 0 {
            put(&mut out, sep);
        }
        put(&mut out, items[i].as_str());
        i += 1;
    }
    out
}

// ---------------------------------------------------------------------------
// Results list
// ---------------------------------------------------------------------------

/// One row of the results list: number, id, author, counts, date, tags.
#[derive(Debug, Clone, PartialEq, Eq)]
pub struct ModelRow {
    pub number: String,
    pub id: String,
    pub author: String,
    pub counts: String,
    pub date: String,
    pub tags: String,
}

/// The author shown for a model: its own, else the part of the id before
/// the first `/`.
pub open spec fn author_text(m: ModelInfo) -> Seq<char> {
    match m.author {
        Some(a) => a@,
        None => split_on(m.id@, '/')[0],
    }
}

/// The date part of a modification time: what comes before the first `T`.
pub open spec fn date_piece(t: Seq<char>) -> Seq<char> {
    split_on(t, 'T')[0]
}

/// The modification date can be shown: missing, empty, shorter than ten
/// bytes, or with byte ten on a character boundary.
pub open spec fn date_shown_ok(m: ModelInfo) -> bool {
    match m.last_modified {
        Some(t) => t@.len() == 0 || utf8_len(date_piece(t@)) < 10 || has_byte_cut(date_piece(t@), 10),
        None => true,
    }
}

/// ` [YYYY-MM-DD]`: the first ten bytes of the date part, when it has
/// that many.
pub open spec fn date_text(m: ModelInfo) -> Seq<char> {
    match m.last_modified {
        Some(t) => if t@.len() > 0 && utf8_len(date_piece(t@)) >= 10 {
            " ["@ + date_piece(t@).take(byte_cut(date_piece(t@), 10)) + "]"@
        } else {
            Seq::<char>::empty()
        },
        None => Seq::<char>::empty(),
    }
}

/// ` [a, b, c]`: at most the first three tags.
pub open spec fn tags_text(tags: Seq<String>) -> Seq<char> {
    if tags.len() == 0 {
        Seq::<char>::empty()
    } else {
        " ["@ + joined_with(tags.take(if tags.len() < 3 { tags.len() as int } else { 3 }).map_values(|t: String| t@), ", "@)
            + "]"@
    }
}

pub open spec fn model_row_view(idx: nat, m: ModelInfo) -> (Seq<char>, Seq<char>, Seq<char>, Seq<char>, Seq<char>, Seq<char>) {
    (
        right_aligned(decimal(idx + 1), 3) + ". "@,
        m.id@,
        author_text(m),
        " ↓"@ + number_text(m.downloads as nat) + " ♥"@ + number_text(m.likes as nat),
        date_text(m),
        tags_text(m.tags@),
    )
}

fn date_of(m: &ModelInfo) -> (r: String)
    requires
        date_shown_ok(*m),
    ensures
        r@ == date_text(*m),
{
    let mut out = String::new();
    if let Some(t) = &m.last_modified {
        let tc = to_chars(t.as_str());
        if tc.len() > 0 {
            let pieces = split_chars(tc.as_slice(), 'T');
            proof {
                lemma_split_nonempty(t@, 'T');
            }
            let dp = &pieces[0];
            assert(dp@ == date_piece(t@));
            match chars_in_bytes(dp.as_slice(), 10) {
                Some(k) => {
                    proof {
                        lemma_utf8_prefix(dp@, k as int);
                    }
                    put(&mut out, " [");
                    let head = copy_range(dp.as_slice(), 0, k);
                    assert(head@ =~= dp@.take(k as int));
                    push_chars(&mut out, head.as_slice());
                    put(&mut out, "]");
                },
                None => {},
            }
        }
    }
    out
}

/// The pieces of row `idx` (counted from zero) of the results list.
pub fn model_row(idx: usize, m: &ModelInfo) -> (r: ModelRow)
    requires
        idx < usize::MAX,
        date_shown_ok(*m),
    ensures
        (r.number@, r.id@, r.author@, r.counts@, r.date@, r.tags@) == model_row_view(idx as nat, *m),
{
    let mut digits: Vec<char> = Vec::new();
    crate::text::push_decimal(&mut digits, (idx + 1) as u64);
    let mut num: Vec<char> = Vec::new();
    crate::render::push_right_aligned(&mut num, digits.as_slice(), 3);
    let mut number = String::new();
    push_chars(&mut number, num.as_slice());
    put(&mut number, ". ");
    let author = match &m.author {
        Some(a) => a.clone(),
        None => {
            let ic = to_chars(m.id.as_str());
            let pieces = split_chars(ic.as_slice(), '/');
            proof {
                lemma_split_nonempty(m.id@, '/');
            }
            let mut a = String::new();
            push_chars(&mut a, pieces[0].as_slice());
            a
        },
    };
    let mut counts = String::new();
    put(&mut counts, " ↓");
    let d = format_number(m.downloads);
    put(&mut counts, d.as_str());
    put(&mut counts, " ♥");
    let l = format_number(m.likes);
    put(&mut counts, l.as_str());
    let date = date_of(m);
    let mut tags = String::new();
    if m.tags.len() > 0 {
        let n: usize = if m.tags.len() < 3 { m.tags.len() } else { 3 };
        put(&mut tags, " [");
        let j = join_first(&m.tags, n, ", ");
        put(&mut tags, j.as_str());
        put(&mut tags, "]");
    }
    ModelRow { number, id: m.id.clone(), author, counts, date, tags }
}

// ---------------------------------------------------------------------------
// Titles and the status bar
// ---------------------------------------------------------------------------

pub open spec fn results_title_text(loading: bool, no_models: bool, query_empty: bool) -> Seq<char> {
    if loading {
        "Results [Loading...]"@
    } else if no_models && !query_empty {
        "Results [No models found]"@
    } else if no_models {
        "Results [Enter a search query]"@
    } else {
        "Results"@
    }
}

/// Filters or sorting differ from the defaults (downloads, descending, no
/// minimums).
pub open spec fn filters_active(a: App) -> bool {
    a.filter_min_downloads > 0 || a.filter_min_likes > 0 || a.sort_field != SortField::Downloads
        || a.sort_direction != SortDirection::Descending
}

/// The first status line: the selection details when set, else the
/// selected model and its page.
pub open spec fn status_first_line(a: App) -> Seq<char> {
    if a.selection_info@.len() > 0 {
        a.selection_info@
    } else {
        match a.list_state {
            Some(i) => if i < a.models@.len() {
                "Selected: "@ + a.models@[i as int].id@ + " | URL: https://huggingface.co/"@ + a.models@[i as int].id@
            } else {
                Seq::<char>::empty()
            },
            None => Seq::<char>::empty(),
        }
    }
}

/// The status bar: the first line (when there is one) over the error or
/// status, marked when filters are active.
pub open spec fn status_bar_of(a: App) -> Seq<char> {
    let second = match a.error {
        Some(e) => "Error: "@ + e@,
        None => a.status@,
    } + if filters_active(a) { " [Filters Active]"@ } else { Seq::<char>::empty() };
    if status_first_line(a).len() > 0 {
        status_first_line(a) + "\n"@ + second
    } else {
        second
    }
}

pub open spec fn metadata_title_text(loading: bool, has_metadata: bool) -> Seq<char> {
    if loading {
        "Model Information [Loading...]"@
    } else if !has_metadata {
        "Model Information [Select a model to view]"@
    } else {
        "Model Information"@
    }
}

pub open spec fn quant_title_text(loading: bool, no_groups: bool) -> Seq<char> {
    if loading {
        "Quantization Types [Loading...]"@
    } else if no_groups {
        "Quantization Types [Select a model to view]"@
    } else {
        "Quantization Types"@
    }
}

/// The files shown beside the groups: those of the selected group.
pub open spec fn shown_files(a: App) -> Seq<QuantizationInfo> {
    match a.quant_list_state {
        Some(g) => if g < a.quantizations@.len() {
            a.quantizations@[g as int].files@
        } else {
            Seq::<QuantizationInfo>::empty()
        },
        None => Seq::<QuantizationInfo>::empty(),
    }
}

impl App {
    /// Title of the results list.
    pub fn results_title(&self) -> (r: String)
        ensures
            r@ == results_title_text(self.loading, self.models@.len() == 0, self.input@.len() == 0),
    {
        let q = to_chars(self.input.as_str());
        if self.loading {
            String::from_str("Results [Loading...]")
        } else if self.models.len() == 0 && q.len() > 0 {
            String::from_str("Results [No models found]")
        } else if self.models.len() == 0 {
            String::from_str("Results [Enter a search query]")
        } else {
            String::from_str("Results")
        }
    }

    /// The text of the status bar.
    pub fn status_bar_text(&self) -> (r: String)
        ensures
            r@ == status_bar_of(*self),
    {
        let mut first = String::new();
        let info = to_chars(self.selection_info.as_str());
        if info.len() > 0 {
            put(&mut first, self.selection_info.as_str());
        } else if let Some(i) = self.list_state {
            if i < self.models.len() {
                put(&mut first, "Selected: ");
                put(&mut first, self.models[i].id.as_str());
                put(&mut first, " | URL: https://huggingface.co/");
                put(&mut first, self.models[i].id.as_str());
            }
        }
        let mut second = String::new();
        match &self.error {
            Some(e) => {
                put(&mut second, "Error: ");
                put(&mut second, e.as_str());
            },
            None => put(&mut second, self.status.as_str()),
        }
        let active = self.filter_min_downloads > 0 || self.filter_min_likes > 0 || self.sort_field
            != SortField::Downloads || self.sort_direction != SortDirection::Descending;
        if active {
            put(&mut second, " [Filters Active]");
        }
        assert(first@ == status_first_line(*self));
        let fc = to_chars(first.as_str());
        if fc.len() > 0 {
            put(&mut first, "\n");
            put(&mut first, second.as_str());
            first
        } else {
            second
        }
    }

    /// Title of the model-information panel.
    pub fn metadata_title(&self) -> (r: String)
        ensures
            r@ == metadata_title_text(self.loading_quants, self.model_metadata is Some),
    {
        if self.loading_quants {
            String::from_str("Model Information [Loading...]")
        } else if self.model_metadata.is_none() {
            String::from_str("Model Information [Select a model to view]")
        } else {
            String::from_str("Model Information")
        }
    }

    /// Title of the file-tree panel.
    pub fn tree_title(&self) -> (r: String)
        ensures
            r@ == (if self.file_tree is None { "Repository Files [Select a model to view]"@ } else { "Repository Files"@ }),
    {
        if self.file_tree.is_none() {
            String::from_str("Repository Files [Select a model to view]")
        } else {
            String::from_str("Repository Files")
        }
    }

    /// Title of the quantization-group panel.
    pub fn quant_title(&self) -> (r: String)
        ensures
            r@ == quant_title_text(self.loading_quants, self.quantizations@.len() == 0),
    {
        if self.loading_quants {
            String::from_str("Quantization Types [Loading...]")
        } else if self.quantizations.len() == 0 {
            String::from_str("Quantization Types [Select a model to view]")
        } else {
            String::from_str("Quantization Types")
        }
    }

    /// Title of the file panel beside the groups.
    pub fn files_title(&self) -> (r: String)
        ensures
            r@ == (if shown_files(*self).len() == 0 { "Files [Select a quantization type]"@ } else { "Files"@ }),
    {
        let empty = match self.quant_list_state {
            Some(g) => if g < self.quantizations.len() {
                self.quantizations[g].files.len() == 0
            } else {
                true
            },
            None => true,
        };
        if empty {
            String::from_str("Files [Select a quantization type]")
        } else {
            String::from_str("Files")
        }
    }
}

// ---------------------------------------------------------------------------
// Model information
// ---------------------------------------------------------------------------

/// The sum of the known sizes of `files`.
pub open spec fn known_total(files: Seq<RepoFile>) -> nat
    decreases files.len(),
{
    if files.len() == 0 {
        0
    } else {
        known_total(files.drop_last()) + match files.last().size {
            Some(n) => n as nat,
            None => 0,
        }
    }
}

/// A line for an optional field: none when it is absent.
pub open spec fn opt_line(label: Seq<char>, v: Option<String>) -> Seq<(Seq<char>, Seq<char>)> {
    match v {
        Some(x) => seq![(label, x@)],
        None => Seq::empty(),
    }
}

pub open spec fn card_lines(m: ModelMetadata) -> Seq<(Seq<char>, Seq<char>)> {
    match m.card_data {
        Some(c) => opt_line("Base Model: "@, c.base_model) + opt_line("License: "@, c.license) + match c.language {
            Some(l) => seq![("Languages: "@, joined_with(l@.map_values(|t: String| t@), ", "@))],
            None => Seq::empty(),
        },
        None => Seq::empty(),
    }
}

pub open spec fn tag_lines(m: ModelMetadata) -> Seq<(Seq<char>, Seq<char>)> {
    if m.tags@.len() == 0 {
        Seq::empty()
    } else {
        seq![
            (Seq::<char>::empty(), Seq::<char>::empty()),
            ("Tags:"@, Seq::<char>::empty()),
            (Seq::<char>::empty(), joined_with(
                m.tags@.take(if m.tags@.len() < 8 { m.tags@.len() as int } else { 8 }).map_values(|t: String| t@),
                ", "@,
            )),
        ]
    }
}

pub open spec fn files_line(m: ModelMetadata) -> (Seq<char>, Seq<char>) {
    ("Files: "@, decimal(m.siblings@.len()) + " ("@ + size_text(known_total(m.siblings@)) + ")"@)
}

/// The `(label, value)` lines of the model-information panel, the label
/// highlighted.  Optional fields appear when present; then the file count
/// and total size, and the first eight tags under a heading.
pub open spec fn metadata_lines_of(m: ModelMetadata) -> Seq<(Seq<char>, Seq<char>)> {
    seq![("ID: "@, m.model_id@)] + opt_line("Library: "@, m.library_name) + opt_line("Pipeline: "@, m.pipeline_tag)
        + card_lines(m) + seq![files_line(m)] + tag_lines(m)
}

pub open spec fn lines_view(v: Seq<(String, String)>) -> Seq<(Seq<char>, Seq<char>)> {
    v.map_values(|p: (String, String)| (p.0@, p.1@))
}

fn push_opt(lines: &mut Vec<(String, String)>, label: &str, v: &Option<String>)
    ensures
        lines_view(final(lines)@) == lines_view(old(lines)@) + opt_line(label@, *v),
{
    if let Some(x) = v {
        lines.push((String::from_str(label), x.clone()));
    }
    assert(lines_view(lines@) =~= lines_view(old(lines)@) + opt_line(label@, *v));
}

fn known_total_of(files: &Vec<RepoFile>) -> (r: u64)
    requires
        known_total(files@) <= u64::MAX,
    ensures
        r == known_total(files@),
{
    let mut total: u64 = 0;
    let mut i: usize = 0;
    while i < files.len()
        invariant
            i <= files@.len(),
            total == known_total(files@.take(i as int)),
            known_total(files@) <= u64::MAX,
        decreases files.len() - i,
    {
        proof {
            assert(files@.take(i + 1).drop_last() =~= files@.take(i as int));
            lemma_known_total_prefix(files@, i + 1);
        }
        if let Some(n) = files[i].size {
            total = total + n;
        }
        i += 1;
    }
    assert(files@.take(files@.len() as int) =~= files@);
    total
}

proof fn lemma_known_total_prefix(s: Seq<RepoFile>, k: int)
    requires
        0 <= k <= s.len(),
    ensures
        known_total(s.take(k)) <= known_total(s),
    decreases s.len() - k,
{
    if k < s.len() {
        lemma_known_total_prefix(s, k + 1);
        assert(s.take(k + 1).drop_last() =~= s.take(k));
    } else {
        assert(s.take(k) =~= s);
    }
}

/// The lines of the model-information panel for `m`.
pub fn metadata_lines(m: &ModelMetadata) -> (r: Vec<(String, String)>)
    requires
        known_total(m.siblings@) <= u64::MAX,
    ensures
        lines_view(r@) == metadata_lines_of(*m),
{
    let mut lines: Vec<(String, String)> = Vec::new();
    lines.push((String::from_str("ID: "), m.model_id.clone()));
    assert(lines_view(lines@) =~= seq![("ID: "@, m.model_id@)]);
    push_opt(&mut lines, "Library: ", &m.library_name);
    push_opt(&mut lines, "Pipeline: ", &m.pipeline_tag);
    let ghost head = lines_view(lines@);
    if let Some(c) = &m.card_data {
        push_opt(&mut lines, "Base Model: ", &c.base_model);
        push_opt(&mut lines, "License: ", &c.license);
        if let Some(l) = &c.language {
            let j = join_first(l, l.len(), ", ");
            assert(l@.take(l@.len() as int) =~= l@);
            let ghost before = lines_view(lines@);
            lines.push((String::from_str("Languages: "), j));
            assert(lines_view(lines@) =~= before + seq![("Languages: "@, j@)]);
        }
    }
    assert(lines_view(lines@) =~= head + card_lines(*m));
    let mut files = String::new();
    put_dec(&mut files, m.siblings.len() as u64);
    put(&mut files, " (");
    let total = known_total_of(&m.siblings);
    let sz = format_size(total);
    put(&mut files, sz.as_str());
    put(&mut files, ")");
    let ghost mid = lines_view(lines@);
    lines.push((String::from_str("Files: "), files));
    assert(lines_view(lines@) =~= mid + seq![files_line(*m)]);
    let ghost before_tags = lines_view(lines@);
    if m.tags.len() > 0 {
        lines.push((String::new(), String::new()));
        lines.push((String::from_str("Tags:"), String::new()));
        let n: usize = if m.tags.len() < 8 { m.tags.len() } else { 8 };
        let j = join_first(&m.tags, n, ", ");
        lines.push((String::new(), j));
        assert(lines_view(lines@) =~= before_tags + tag_lines(*m));
    } else {
        assert(lines_view(lines@) =~= before_tags + tag_lines(*m));
    }
    assert(lines_view(lines@) =~= metadata_lines_of(*m));
    lines
}

// ---------------------------------------------------------------------------
// File tree and quantization rows
// ---------------------------------------------------------------------------

/// One row of the file tree: indent, expansion mark, name, size and (for
/// a directory) its file count.
#[derive(Debug, Clone, PartialEq, Eq)]
pub struct TreeRow {
    pub indent: String,
    pub icon: String,
    pub name: String,
    pub size: String,
    pub count: String,
}

pub open spec fn size_or_dash(size: Option<u64>) -> Seq<char> {
    match size {
        Some(n) => size_text(n as nat),
        None => "-"@,
    }
}

pub open spec fn tree_row_view(n: FileTreeNode) -> (Seq<char>, Seq<char>, Seq<char>, Seq<char>, Seq<char>) {
    (
        Seq::new(2 * n.depth as nat, |i: int| ' '),
        if n.is_dir {
            if n.expanded { "▾ "@ } else { "▸ "@ }
        } else {
            "  "@
        },
        if n.is_dir { n.name@ + "/"@ } else { n.name@ },
        "  "@ + size_or_dash(n.size),
        if n.is_dir { " ("@ + decimal(files_in(n)) + " files)"@ } else { Seq::<char>::empty() },
    )
}

/// The row of node `n` in the file-tree panel.
pub fn tree_row(n: &FileTreeNode) -> (r: TreeRow)
    requires
        files_in(*n) <= usize::MAX,
        2 * n.depth <= usize::MAX,
    ensures
        (r.indent@, r.icon@, r.name@, r.size@, r.count@) == tree_row_view(*n),
{
    let mut ind: Vec<char> = Vec::new();
    let mut k: usize = 0;
    while k < 2 * n.depth
        invariant
            k <= 2 * n.depth,
            2 * n.depth <= usize::MAX,
            ind@ == Seq::new(k as nat, |i: int| ' '),
        decreases 2 * n.depth - k,
    {
        ind.push(' ');
        k += 1;
        assert(ind@ =~= Seq::new(k as nat, |i: int| ' '));
    }
    let mut indent = String::new();
    push_chars(&mut indent, ind.as_slice());
    let icon = if n.is_dir {
        if n.expanded { String::from_str("▾ ") } else { String::from_str("▸ ") }
    } else {
        String::from_str("  ")
    };
    let mut name = n.name.clone();
    if n.is_dir {
        put(&mut name, "/");
    }
    let mut size = String::from_str("  ");
    match n.size {
        Some(b) => {
            let t = format_size(b);
            put(&mut size, t.as_str());
        },
        None => put(&mut size, "-"),
    }
    let mut count = String::new();
    if n.is_dir {
        put(&mut count, " (");
        let c = count_files(n);
        put_dec(&mut count, c as u64);
        put(&mut count, " files)");
    }
    TreeRow { indent, icon, name, size, count }
}

/// One row of a quantization panel: size column, name, and suffix.
#[derive(Debug, Clone, PartialEq, Eq)]
pub struct QuantRow {
    pub size: String,
    pub name: String,
    pub suffix: String,
}

/// The size column: right-aligned in ten cells, then two spaces.
pub open spec fn size_column(bytes: nat) -> Seq<char> {
    right_aligned(size_text(bytes), 10) + "  "@
}

pub open spec fn group_row_view(g: QuantizationGroup, downloaded: bool) -> (Seq<char>, Seq<char>, Seq<char>) {
    (
        size_column(g.total_size as nat),
        left_aligned(g.quant_type@, 14, ' ') + " "@,
        if downloaded {
            " [downloaded]"@
        } else if g.files@.len() > 1 {
            " ("@ + decimal(g.files@.len()) + " files)"@
        } else {
            Seq::<char>::empty()
        },
    )
}

fn size_col(bytes: u64) -> (r: String)
    ensures
        r@ == size_column(bytes as nat),
{
    let t = format_size(bytes);
    let tc = to_chars(t.as_str());
    let mut v: Vec<char> = Vec::new();
    crate::render::push_right_aligned(&mut v, tc.as_slice(), 10);
    let mut out = String::new();
    push_chars(&mut out, v.as_slice());
    put(&mut out, "  ");
    out
}

/// The row of group `g`; it counts as downloaded when its first file is
/// among the completed downloads.
pub fn quant_group_row(g: &QuantizationGroup, complete: &CompleteDownloads) -> (r: QuantRow)
    requires
        g.files@.len() > 0,
    ensures
        (r.size@, r.name@, r.suffix@) == group_row_view(*g, complete.contents().dom().contains(g.files@[0].filename@)),
{
    let size = size_col(g.total_size);
    let qt = to_chars(g.quant_type.as_str());
    let mut nv: Vec<char> = Vec::new();
    crate::report::push_left(&mut nv, qt.as_slice(), 14, ' ');
    let mut name = String::new();
    push_chars(&mut name, nv.as_slice());
    put(&mut name, " ");
    let downloaded = complete.contains_key(g.files[0].filename.as_str());
    let mut suffix = String::new();
    if downloaded {
        put(&mut suffix, " [downloaded]");
    } else if g.files.len() > 1 {
        put(&mut suffix, " (");
        put_dec(&mut suffix, g.files.len() as u64);
        put(&mut suffix, " files)");
    }
    QuantRow { size, name, suffix }
}

/// The name room of a file row in a panel `width` cells wide: less the
/// borders, the highlight gutter and the size column, and the
/// `[downloaded]` mark when shown.
pub open spec fn name_budget(width: nat, downloaded: bool) -> nat {
    let b: nat = if width >= 17 { (width - 17) as nat } else { 0 };
    if downloaded {
        if b >= 13 { (b - 13) as nat } else { 0 }
    } else {
        b
    }
}

pub open spec fn file_row_view(f: QuantizationInfo, downloaded: bool, width: nat) -> (Seq<char>, Seq<char>, Seq<char>) {
    (
        size_column(f.size as nat),
        truncated_filename(f.filename@, name_budget(width, downloaded)),
        if downloaded { " [downloaded]"@ } else { Seq::<char>::empty() },
    )
}

/// The row of file `f` in a panel `width` cells wide, its name cut in the
/// middle to fit.
pub fn quant_file_row(f: &QuantizationInfo, complete: &CompleteDownloads, width: u16) -> (r: QuantRow)
    ensures
        (r.size@, r.name@, r.suffix@) == file_row_view(*f, complete.contents().dom().contains(f.filename@), width as nat),
{
    let size = size_col(f.size);
    let downloaded = complete.contains_key(f.filename.as_str());
    let mut budget: usize = width.saturating_sub(17) as usize;
    if downloaded {
        budget = budget.saturating_sub(13);
    }
    let name = truncate_filename(f.filename.as_str(), budget);
    let suffix = if downloaded { String::from_str(" [downloaded]") } else { String::new() };
    QuantRow { size, name, suffix }
}

// ---------------------------------------------------------------------------
// Filter toolbar
// ---------------------------------------------------------------------------

/// The preset whose settings the filters hold, if any.
pub open spec fn active_preset_of(f: SortField, d: SortDirection, min_downloads: u64, min_likes: u64) -> Option<FilterPreset> {
    if d != SortDirection::Descending {
        None
    } else if f == SortField::Modified && min_downloads == 0 && min_likes == 0 {
        Some(FilterPreset::Recent)
    } else if f == SortField::Likes && min_downloads == 0 && min_likes == 1000 {
        Some(FilterPreset::HighlyRated)
    } else if f == SortField::Downloads && min_downloads == 10000 && min_likes == 100 {
        Some(FilterPreset::Popular)
    } else if f == SortField::Downloads && min_downloads == 0 && min_likes == 0 {
        Some(FilterPreset::NoFilters)
    } else {
        None
    }
}

pub open spec fn sort_name(f: SortField) -> Seq<char> {
    match f {
        SortField::Downloads => "Downloads"@,
        SortField::Likes => "Likes"@,
        SortField::Modified => "Modified"@,
        SortField::Name => "Name"@,
    }
}

/// The values of the filter toolbar, each shown after its label: the sort
/// field with its arrow, the two minimums, and the active preset's name in
/// brackets.
#[derive(Debug, Clone, PartialEq, Eq)]
pub struct ToolbarText {
    pub sort: String,
    pub min_downloads: String,
    pub min_likes: String,
    pub preset: Option<String>,
}

pub open spec fn toolbar_view(a: App) -> (Seq<char>, Seq<char>, Seq<char>, Option<Seq<char>>) {
    (
        sort_name(a.sort_field) + if a.sort_direction == SortDirection::Ascending { " ▲"@ } else { " ▼"@ },
        number_text(a.filter_min_downloads as nat),
        number_text(a.filter_min_likes as nat),
        match active_preset_of(a.sort_field, a.sort_direction, a.filter_min_downloads, a.filter_min_likes) {
            Some(p) => Some("["@ + preset_name(p) + "]"@),
            None => None,
        },
    )
}

/// The preset that the current filters match, if any.
pub fn active_preset(f: SortField, d: SortDirection, min_downloads: u64, min_likes: u64) -> (r: Option<FilterPreset>)
    ensures
        r == active_preset_of(f, d, min_downloads, min_likes),
{
    if d != SortDirection::Descending {
        None
    } else if f == SortField::Modified && min_downloads == 0 && min_likes == 0 {
        Some(FilterPreset::Recent)
    } else if f == SortField::Likes && min_downloads == 0 && min_likes == 1000 {
        Some(FilterPreset::HighlyRated)
    } else if f == SortField::Downloads && min_downloads == 10000 && min_likes == 100 {
        Some(FilterPreset::Popular)
    } else if f == SortField::Downloads && min_downloads == 0 && min_likes == 0 {
        Some(FilterPreset::NoFilters)
    } else {
        None
    }
}

impl App {
    /// The values shown in the filter toolbar.
    pub fn filter_toolbar(&self) -> (r: ToolbarText)
        ensures
            (r.sort@, r.min_downloads@, r.min_likes@, match r.preset {
                Some(p) => Some(p@),
                None => None,
            }) == toolbar_view(*self),
    {
        let mut sort = match self.sort_field {
            SortField::Downloads => String::from_str("Downloads"),
            SortField::Likes => String::from_str("Likes"),
            SortField::Modified => String::from_str("Modified"),
            SortField::Name => String::from_str("Name"),
        };
        match self.sort_direction {
            SortDirection::Ascending => put(&mut sort, " ▲"),
            SortDirection::Descending => put(&mut sort, " ▼"),
        }
        let min_downloads = format_number(self.filter_min_downloads);
        let min_likes = format_number(self.filter_min_likes);
        let preset = match active_preset(self.sort_field, self.sort_direction, self.filter_min_downloads, self.filter_min_likes) {
            Some(p) => {
                let mut t = String::from_str("[");
                match p {
                    FilterPreset::NoFilters => put(&mut t, "No Filters"),
                    FilterPreset::Popular => put(&mut t, "Popular"),
                    FilterPreset::HighlyRated => put(&mut t, "Highly Rated"),
                    FilterPreset::Recent => put(&mut t, "Recent"),
                }
                put(&mut t, "]");
                Some(t)
            },
            None => None,
        };
        ToolbarText { sort, min_downloads, min_likes, preset }
    }
}

// ---------------------------------------------------------------------------
// Showability checks and the options popup
// ---------------------------------------------------------------------------

/// Whether [`model_row`] can show `m`'s date (byte ten of its date part is
/// on a character boundary, or the date is short or missing).
pub fn row_is_showable(m: &ModelInfo) -> (r: bool)
    ensures
        r == date_shown_ok(*m),
{
    match &m.last_modified {
        None => true,
        Some(t) => {
            let tc = to_chars(t.as_str());
            if tc.len() == 0 {
                return true;
            }
            let pieces = split_chars(tc.as_slice(), 'T');
            proof {
                lemma_split_nonempty(t@, 'T');
            }
            let dp = &pieces[0];
            assert(dp@ == date_piece(t@));
            if chars_in_bytes(dp.as_slice(), 10).is_some() {
                true
            } else {
                crate::report::utf8_len_capped(dp.as_slice()) < 10
            }
        },
    }
}

/// `n` bullets.
pub open spec fn bullets(n: nat) -> Seq<char> {
    Seq::new(n, |i: int| '•')
}

/// The token as the options show it: the text being edited, else a bullet
/// per byte (at most twenty), or `[Not set]` when there is none.
pub open spec fn token_shown(o: AppOptions, token_text: Seq<char>) -> Seq<char> {
    if o.editing_token {
        token_text
    } else {
        match o.hf_token {
            Some(t) => if t@.len() > 0 {
                bullets(if utf8_len(t@) < 20 { utf8_len(t@) } else { 20 })
            } else {
                "[Not set]"@
            },
            None => "[Not set]"@,
        }
    }
}

pub open spec fn on_off(b: bool) -> Seq<char> {
    if b { "Enabled"@ } else { "Disabled"@ }
}

/// The fourteen `(label, value)` fields of the options popup, in the order
/// of the field indices that the arrows move through.
pub open spec fn option_lines_of(o: AppOptions, dir_text: Seq<char>, token_text: Seq<char>) -> Seq<(Seq<char>, Seq<char>)> {
    seq![
        ("Default Directory:"@, if o.editing_directory { dir_text } else { o.default_directory@ }),
        ("HF Token (optional):"@, token_shown(o, token_text)),
        ("Concurrent Threads:"@, decimal(o.concurrent_threads as nat)),
        ("Target Number of Chunks:"@, decimal(o.num_chunks as nat)),
        ("Min Chunk Size:"@, size_text(o.min_chunk_size as nat)),
        ("Max Chunk Size:"@, size_text(o.max_chunk_size as nat)),
        ("Max Retries:"@, decimal(o.max_retries as nat)),
        ("Download Timeout (sec):"@, decimal(o.download_timeout_secs as nat)),
        ("Retry Delay (sec):"@, decimal(o.retry_delay_secs as nat)),
        ("Progress Update Interval (ms):"@, decimal(o.progress_update_interval_ms as nat)),
        ("Enable Verification:"@, on_off(o.verification_on_completion)),
        ("Concurrent Verifications:"@, decimal(o.concurrent_verifications as nat)),
        ("Verification Buffer Size:"@, size_text(o.verification_buffer_size as nat)),
        ("Verification Update Interval:"@, decimal(o.verification_update_interval as nat)),
    ]
}

fn dec_string(n: u64) -> (r: String)
    ensures
        r@ == decimal(n as nat),
{
    crate::text::decimal_string(n)
}

fn token_text_of(o: &AppOptions, token_text: &str) -> (r: String)
    ensures
        r@ == token_shown(*o, token_text@),
{
    if o.editing_token {
        return String::from_str(token_text);
    }
    match &o.hf_token {
        Some(t) => {
            let tc = to_chars(t.as_str());
            if tc.len() > 0 {
                let cap = crate::report::utf8_len_capped(tc.as_slice());
                let n: usize = if cap < 20 { cap } else { 20 };
                let mut out = String::new();
                let mut k: usize = 0;
                while k < n
                    invariant
                        k <= n,
                        out@ == bullets(k as nat),
                    decreases n - k,
                {
                    crate::text::push_chars(&mut out, &['•']);
                    k += 1;
                    assert(out@ =~= bullets(k as nat));
                }
                out
            } else {
                String::from_str("[Not set]")
            }
        },
        None => String::from_str("[Not set]"),
    }
}

/// The fields of the options popup, with the directory and token texts
/// being edited.
pub fn option_lines(o: &AppOptions, dir_text: &str, token_text: &str) -> (r: Vec<(String, String)>)
    ensures
        lines_view(r@) == option_lines_of(*o, dir_text@, token_text@),
{
    let mut v: Vec<(String, String)> = Vec::new();
    let dir = if o.editing_directory { String::from_str(dir_text) } else { o.default_directory.clone() };
    v.push((String::from_str("Default Directory:"), dir));
    v.push((String::from_str("HF Token (optional):"), token_text_of(o, token_text)));
    v.push((String::from_str("Concurrent Threads:"), dec_string(o.concurrent_threads as u64)));
    v.push((String::from_str("Target Number of Chunks:"), dec_string(o.num_chunks as u64)));
    v.push((String::from_str("Min Chunk Size:"), format_size(o.min_chunk_size)));
    v.push((String::from_str("Max Chunk Size:"), format_size(o.max_chunk_size)));
    v.push((String::from_str("Max Retries:"), dec_string(o.max_retries as u64)));
    v.push((String::from_str("Download Timeout (sec):"), dec_string(o.download_timeout_secs)));
    v.push((String::from_str("Retry Delay (sec):"), dec_string(o.retry_delay_secs)));
    v.push((String::from_str("Progress Update Interval (ms):"), dec_string(o.progress_update_interval_ms)));
    let on = if o.verification_on_completion { String::from_str("Enabled") } else { String::from_str("Disabled") };
    v.push((String::from_str("Enable Verification:"), on));
    v.push((String::from_str("Concurrent Verifications:"), dec_string(o.concurrent_verifications as u64)));
    v.push((String::from_str("Verification Buffer Size:"), format_size(o.verification_buffer_size as u64)));
    v.push((String::from_str("Verification Update Interval:"), dec_string(o.verification_update_interval as u64)));
    assert(lines_view(v@) =~= option_lines_of(*o, dir_text@, token_text@));
    v
}

/// Where the options popup puts its rows, counted from the top of its
/// inner area: the three category headers, the fourteen fields, and the
/// four help lines from `help` on.  When the inner area is shorter than
/// the full layout (25 rows) it drops the top padding and the gaps before
/// the second and third categories.
#[derive(Debug, Clone, PartialEq, Eq)]
pub struct OptionsLayout {
    pub compact: bool,
    pub headers: Vec<u16>,
    pub fields: Vec<u16>,
    pub help: u16,
}

/// The row of field `k` (categories start at fields 0, 2 and 10).
pub open spec fn field_row(k: nat, compact: bool) -> nat {
    if compact {
        k + 1 + (if k >= 2 { 1nat } else { 0nat }) + (if k >= 10 { 1nat } else { 0nat })
    } else {
        k + 2 + (if k >= 2 { 2nat } else { 0nat }) + (if k >= 10 { 2nat } else { 0nat })
    }
}

pub open spec fn header_rows(compact: bool) -> Seq<u16> {
    if compact { seq![0u16, 3u16, 12u16] } else { seq![1u16, 5u16, 15u16] }
}

/// The first row after the fields.
pub open spec fn content_end(compact: bool) -> nat {
    if compact { 17 } else { 20 }
}

/// The help lines sit at the bottom (one row above the border gap) when
/// they fit below the fields, else right after them.
pub open spec fn help_row(height: nat, compact: bool) -> nat {
    if height > content_end(compact) + 4 { (height - 5) as nat } else { content_end(compact) }
}

/// The rows of the options popup for an inner area `height` rows tall.
pub fn options_layout(height: u16) -> (r: OptionsLayout)
    ensures
        r.compact == (height < 25),
        r.headers@ == header_rows(r.compact),
        r.fields@.len() == 14,
        forall|k: int| 0 <= k < 14 ==> r.fields@[k] == field_row(k as nat, r.compact),
        r.help == help_row(height as nat, r.compact),
{
    let compact = height < 25;
    let headers = if compact { vec![0u16, 3u16, 12u16] } else { vec![1u16, 5u16, 15u16] };
    let mut fields: Vec<u16> = Vec::new();
    let mut k: u16 = 0;
    while k < 14
        invariant
            k <= 14,
            fields@.len() == k,
            forall|j: int| 0 <= j < k ==> fields@[j] == field_row(j as nat, compact),
        decreases 14 - k,
    {
        let row: u16 = if compact {
            k + 1 + (if k >= 2 { 1 } else { 0 }) + (if k >= 10 { 1 } else { 0 })
        } else {
            k + 2 + (if k >= 2 { 2 } else { 0 }) + (if k >= 10 { 2 } else { 0 })
        };
        fields.push(row);
        k += 1;
    }
    let end: u16 = if compact { 17 } else { 20 };
    let help = if height > end + 4 { height - 5 } else { end };
    assert(headers@ =~= header_rows(compact));
    OptionsLayout { compact, headers, fields, help }
}

/// The options popup's size in an area `width` by `height` cells: at most
/// 64 by 31, leaving two cells on each side.
pub fn options_popup_size(width: u16, height: u16) -> (r: (u16, u16))
    ensures
        r.0 == (if width >= 4 { if width - 4 < 64 { width - 4 } else { 64 } } else { 0 }),
        r.1 == (if height >= 4 { if height - 4 < 31 { height - 4 } else { 31 } } else { 0 }),
{
    let w = width.saturating_sub(4);
    let h = height.saturating_sub(4);
    (if w < 64 { w } else { 64 }, if h < 31 { h } else { 31 })
}

} // verus!
