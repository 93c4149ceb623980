//! Command-line (non-interactive) helpers: errors and exit codes, model ID
//! checks, download summaries and small formatters.

use crate::api::{lfs_sha, size_or_zero};
use crate::models::{ModelMetadata, QuantizationGroup, QuantizationInfo, RepoFile};
use crate::quant::opt_str_view;
use crate::text::{decimal, from_chars, push_decimal, split_chars, split_on, str_eq, to_chars};
use crate::utils::{format_size, size_text};
use vstd::prelude::*;

verus! {

#[verifier::external_type_specification]
#[verifier::external_body]
pub struct ExIoError(std::io::Error);

/// Error type for command-line operations.
#[derive(Debug)]
pub enum HeadlessError {
    ApiError(String),
    DownloadError(String),
    ConfigError(String),
    IoError(std::io::Error),
    AuthError(String),
    /// The arguments are not valid (a malformed model ID).
    InvalidArgs(String),
}

/// Success.
pub const EXIT_SUCCESS: i32 = 0;

/// Any failure but authentication and usage.
pub const EXIT_ERROR: i32 = 1;

/// Authentication required.
pub const EXIT_AUTH_ERROR: i32 = 2;

/// Invalid arguments.
pub const EXIT_INVALID_ARGS: i32 = 3;

impl HeadlessError {
    /// Process exit code for the error: authentication errors and invalid
    /// arguments have their own codes, every other error is a general
    /// failure.
    pub fn exit_code(&self) -> (r: i32)
        ensures
            r == self.exit_code_of(),
    {
        match self {
            HeadlessError::AuthError(_) => EXIT_AUTH_ERROR,
            HeadlessError::InvalidArgs(_) => EXIT_INVALID_ARGS,
            HeadlessError::ApiError(_) | HeadlessError::DownloadError(_) | HeadlessError::ConfigError(_)
            | HeadlessError::IoError(_) => EXIT_ERROR,
        }
    }
}

impl HeadlessError {
    /// The exit code that [`HeadlessError::exit_code`] gives.
    pub open spec fn exit_code_of(&self) -> i32 {
        if self is AuthError {
            EXIT_AUTH_ERROR
        } else if self is InvalidArgs {
            EXIT_INVALID_ARGS
        } else {
            EXIT_ERROR
        }
    }
}

impl From<std::io::Error> for HeadlessError {
    fn from(err: std::io::Error) -> (r: HeadlessError) {
        HeadlessError::IoError(err)
    }
}

impl vstd::std_specs::convert::FromSpecImpl<std::io::Error> for HeadlessError {
    open spec fn obeys_from_spec() -> bool {
        true
    }

    open spec fn from_spec(err: std::io::Error) -> HeadlessError {
        HeadlessError::IoError(err)
    }
}

/// Formats a file size in human-readable form (as
/// [`format_size`](crate::utils::format_size)).
pub fn format_file_size(bytes: u64) -> (r: String)
    ensures
        r@ == size_text(bytes as nat),
{
    format_size(bytes)
}

/// A duration of whole seconds as `"<h>h <m>m"`, `"<m>m <s>s"` or `"<s>s"`.
pub open spec fn duration_text(secs: nat) -> Seq<char> {
    if secs >= 3600 {
        decimal(secs / 3600) + "h "@ + decimal((secs % 3600) / 60) + seq!['m']
    } else if secs >= 60 {
        decimal(secs / 60) + "m "@ + decimal(secs % 60) + seq!['s']
    } else {
        decimal(secs) + seq!['s']
    }
}

/// Formats a duration given in whole seconds.
pub fn format_duration(secs: u64) -> (r: String)
    ensures
        r@ == duration_text(secs as nat),
{
    let mut out: Vec<char> = Vec::new();
    if secs >= 3600 {
        push_decimal(&mut out, secs / 3600);
        out.push('h');
        out.push(' ');
        push_decimal(&mut out, (secs % 3600) / 60);
        out.push('m');
    } else if secs >= 60 {
        push_decimal(&mut out, secs / 60);
        out.push('m');
        out.push(' ');
        push_decimal(&mut out, secs % 60);
        out.push('s');
    } else {
        push_decimal(&mut out, secs);
        out.push('s');
    }
    proof {
        reveal_strlit("h ");
        reveal_strlit("m ");
    }
    assert(out@ =~= duration_text(secs as nat));
    from_chars(out.as_slice())
}

pub open spec fn model_id_hint() -> Seq<char> {
    "Invalid model ID format. Expected: 'author/model-name'"@
}

/// The ID is `author/model-name`: exactly one `/`, both sides nonempty.
pub open spec fn well_formed_model_id(s: Seq<char>) -> bool {
    s.contains('/') && split_on(s, '/').len() == 2 && split_on(s, '/')[0].len() > 0 && split_on(s, '/')[1].len() > 0
}

/// Validates the model ID format (`author/model-name`).
pub fn validate_model_id(model_id: &str) -> (r: Result<(), HeadlessError>)
    ensures
        r is Ok <==> well_formed_model_id(model_id@),
        r matches Err(HeadlessError::InvalidArgs(m)) || r is Ok,
        r matches Err(HeadlessError::InvalidArgs(m)) ==> m@ == model_id_hint(),
        r matches Err(e) ==> e.exit_code_of() == EXIT_INVALID_ARGS,
{
    let cs = to_chars(model_id);
    let parts = split_chars(cs.as_slice(), '/');
    if !crate::text::contains_char(cs.as_slice(), '/') || parts.len() != 2 || parts[0].len() == 0
        || parts[1].len() == 0 {
        return Err(HeadlessError::InvalidArgs(String::from_str("Invalid model ID format. Expected: 'author/model-name'")));
    }
    Ok(())
}

// ---------------------------------------------------------------------------
// Download summaries
// ---------------------------------------------------------------------------

pub open spec fn names_of_infos(v: Seq<QuantizationInfo>) -> Seq<Seq<char>> {
    v.map_values(|f: QuantizationInfo| f.filename@)
}

/// Index of the first group whose type is `q`, or -1.
pub open spec fn group_index(gs: Seq<QuantizationGroup>, q: Seq<char>, from: int) -> int
    decreases gs.len() - from,
{
    if from < 0 || from >= gs.len() {
        -1
    } else if gs[from].quant_type@ == q {
        from
    } else {
        group_index(gs, q, from + 1)
    }
}

/// File names of every group, in order.
pub open spec fn all_group_files(gs: Seq<QuantizationGroup>) -> Seq<Seq<char>>
    decreases gs.len(),
{
    if gs.len() == 0 {
        Seq::<Seq<char>>::empty()
    } else {
        all_group_files(gs.drop_last()) + names_of_infos(gs.last().files@)
    }
}

/// Sum of the group sizes.
pub open spec fn groups_total(gs: Seq<QuantizationGroup>) -> nat
    decreases gs.len(),
{
    if gs.len() == 0 {
        0
    } else {
        groups_total(gs.drop_last()) + gs.last().total_size as nat
    }
}

/// One line of the available-quantizations list: `TYPE (n files, size)`.
pub open spec fn group_line(g: QuantizationGroup) -> Seq<char> {
    g.quant_type@ + " ("@ + decimal(g.files@.len()) + " files, "@ + size_text(g.total_size as nat) + seq![')']
}

/// The group lines, each after a newline and two spaces but the first.
pub open spec fn group_lines(gs: Seq<QuantizationGroup>) -> Seq<char>
    decreases gs.len(),
{
    if gs.len() == 0 {
        Seq::<char>::empty()
    } else if gs.len() == 1 {
        group_line(gs[0])
    } else {
        group_lines(gs.drop_last()) + "\n  "@ + group_line(gs.last())
    }
}

pub open spec fn not_found_message(q: Seq<char>, gs: Seq<QuantizationGroup>) -> Seq<char> {
    "Quantization '"@ + q + "' not found\n\nAvailable quantizations:\n  "@ + group_lines(gs)
}

pub open spec fn must_choose_message(gs: Seq<QuantizationGroup>) -> Seq<char> {
    "Must specify --quantization or --all\n\nAvailable quantizations:\n  "@ + group_lines(gs)
}

pub open spec fn strings_of(v: Seq<String>) -> Seq<Seq<char>> {
    v.map_values(|s: String| s@)
}

/// `r` is `Ok` with these file names and total.
pub open spec fn summary_is(r: Result<(Vec<String>, u64), HeadlessError>, files: Seq<Seq<char>>, total: nat) -> bool {
    match r {
        Ok((f, t)) => strings_of(f@) == files && t == total,
        Err(_) => false,
    }
}

/// `r` is a download error with this message.
pub open spec fn download_error_is(r: Result<(Vec<String>, u64), HeadlessError>, m: Seq<char>) -> bool {
    match r {
        Err(HeadlessError::DownloadError(e)) => e@ == m,
        _ => false,
    }
}

fn push_group_line(out: &mut String, g: &QuantizationGroup)
    ensures
        final(out)@ == old(out)@ + group_line(*g),
{
    out.append(g.quant_type.as_str());
    out.append(" (");
    let n = crate::text::decimal_string(g.files.len() as u64);
    out.append(n.as_str());
    out.append(" files, ");
    let sz = format_size(g.total_size);
    out.append(sz.as_str());
    out.append(")");
    proof {
        reveal_strlit(")");
    }
    assert(final(out)@ =~= old(out)@ + group_line(*g));
}

fn push_group_lines(out: &mut String, gs: &[QuantizationGroup])
    ensures
        final(out)@ == old(out)@ + group_lines(gs@),
{
    let mut i: usize = 0;
    while i < gs.len()
        invariant
            i <= gs@.len(),
            out@ == old(out)@ + group_lines(gs@.take(i as int)),
        decreases gs.len() - i,
    {
        proof {
            assert(gs@.take(i + 1).drop_last() =~= gs@.take(i as int));
            assert(gs@.take(i + 1).last() == gs@[i as int]);
            if i == 0 {
                assert(gs@.take(1)[0] == gs@[0]);
            }
        }
        let ghost before = out@;
        if i > 0 {
            out.append("\n  ");
        }
        push_group_line(out, &gs[i]);
        proof {
            if i == 0 {
                assert(group_lines(gs@.take(i as int)) =~= Seq::<char>::empty());
                assert(out@ =~= old(out)@ + group_lines(gs@.take(i + 1)));
            } else {
                assert(out@ =~= old(out)@ + group_lines(gs@.take(i + 1)));
            }
        }
        i += 1;
    }
    assert(gs@.take(gs@.len() as int) =~= gs@);
}

fn file_names(files: &Vec<QuantizationInfo>, out: &mut Vec<String>)
    ensures
        strings_of(final(out)@) == strings_of(old(out)@) + names_of_infos(files@),
{
    let mut i: usize = 0;
    while i < files.len()
        invariant
            i <= files@.len(),
            strings_of(out@) == strings_of(old(out)@) + names_of_infos(files@.take(i as int)),
        decreases files.len() - i,
    {
        let ghost before = out@;
        out.push(files[i].filename.clone());
        proof {
            assert(strings_of(out@) =~= strings_of(before).push(files@[i as int].filename@));
            assert(names_of_infos(files@.take(i + 1)) =~= names_of_infos(files@.take(i as int)).push(
                files@[i as int].filename@,
            ));
        }
        i += 1;
    }
    assert(files@.take(files@.len() as int) =~= files@);
}

/// Files and total size to download from a GGUF repository: the named
/// quantization's files (an unknown name fails, listing what is
/// available), or every group's files with `download_all`, else an error
/// asking for one of the two.
pub fn calculate_gguf_download_summary(quantizations: &[QuantizationGroup], filter: Option<&str>, download_all: bool) -> (r: Result<(Vec<String>, u64), HeadlessError>)
    requires
        filter is None && download_all ==> groups_total(quantizations@) <= u64::MAX,
    ensures
        match filter {
            Some(q) => {
                let i = group_index(quantizations@, q@, 0);
                if i >= 0 {
                    summary_is(r, names_of_infos(quantizations@[i].files@), quantizations@[i].total_size as nat)
                } else {
                    download_error_is(r, not_found_message(q@, quantizations@))
                }
            },
            None => if download_all {
                summary_is(r, all_group_files(quantizations@), groups_total(quantizations@))
            } else {
                download_error_is(r, must_choose_message(quantizations@))
            },
        },
{
    match filter {
        Some(q) => {
            let mut i: usize = 0;
            while i < quantizations.len()
                invariant
                    i <= quantizations@.len(),
                    filter == Some(q),
                    group_index(quantizations@, q@, i as int) == group_index(quantizations@, q@, 0),
                decreases quantizations.len() - i,
            {
                if str_eq(quantizations[i].quant_type.as_str(), q) {
                    assert(group_index(quantizations@, q@, i as int) == i as int);
                    let mut files: Vec<String> = Vec::new();
                    file_names(&quantizations[i].files, &mut files);
                    assert(strings_of(files@) =~= names_of_infos(quantizations@[i as int].files@));
                    let total = quantizations[i].total_size;
                    assert(total == quantizations@[i as int].total_size);
                    let r: Result<(Vec<String>, u64), HeadlessError> = Ok((files, total));
                    return r;
                }
                i += 1;
            }
            let mut m = String::from_str("Quantization '");
            m.append(q);
            m.append("' not found\n\nAvailable quantizations:\n  ");
            push_group_lines(&mut m, quantizations);
            Err(HeadlessError::DownloadError(m))
        },
        None => {
            if download_all {
                let mut files: Vec<String> = Vec::new();
                let mut total: u64 = 0;
                let mut i: usize = 0;
                assert(strings_of(files@) =~= Seq::<Seq<char>>::empty());
                while i < quantizations.len()
                    invariant
                        i <= quantizations@.len(),
                        filter is None,
                        download_all,
                        groups_total(quantizations@) <= u64::MAX,
                        strings_of(files@) == all_group_files(quantizations@.take(i as int)),
                        total == groups_total(quantizations@.take(i as int)),
                    decreases quantizations.len() - i,
                {
                    proof {
                        assert(quantizations@.take(i + 1).drop_last() =~= quantizations@.take(i as int));
                        assert(quantizations@.take(i + 1).last() == quantizations@[i as int]);
                        lemma_groups_total_prefix(quantizations@, i as int + 1);
                    }
                    file_names(&quantizations[i].files, &mut files);
                    total = total + quantizations[i].total_size;
                    i += 1;
                }
                assert(quantizations@.take(quantizations@.len() as int) =~= quantizations@);
                Ok((files, total))
            } else {
                let mut m = String::from_str("Must specify --quantization or --all\n\nAvailable quantizations:\n  ");
                push_group_lines(&mut m, quantizations);
                Err(HeadlessError::DownloadError(m))
            }
        },
    }
}

proof fn lemma_groups_total_prefix(gs: Seq<QuantizationGroup>, k: int)
    requires
        0 <= k <= gs.len(),
    ensures
        groups_total(gs.take(k)) <= groups_total(gs),
    decreases gs.len() - k,
{
    if k < gs.len() {
        lemma_groups_total_prefix(gs, k + 1);
        assert(gs.take(k + 1).drop_last() =~= gs.take(k));
    } else {
        assert(gs.take(k) =~= gs);
    }
}

/// Names of the listed files whose size is known, in order.
pub open spec fn sized_names(fs: Seq<RepoFile>) -> Seq<Seq<char>>
    decreases fs.len(),
{
    if fs.len() == 0 {
        Seq::<Seq<char>>::empty()
    } else if fs.last().size is Some {
        sized_names(fs.drop_last()).push(fs.last().rfilename@)
    } else {
        sized_names(fs.drop_last())
    }
}

/// Sum of the known sizes.
pub open spec fn sized_total(fs: Seq<RepoFile>) -> nat
    decreases fs.len(),
{
    if fs.len() == 0 {
        0
    } else {
        sized_total(fs.drop_last()) + match fs.last().size {
            Some(s) => s as nat,
            None => 0,
        }
    }
}

proof fn lemma_sized_total_prefix(fs: Seq<RepoFile>, k: int)
    requires
        0 <= k <= fs.len(),
    ensures
        sized_total(fs.take(k)) <= sized_total(fs),
    decreases fs.len() - k,
{
    if k < fs.len() {
        lemma_sized_total_prefix(fs, k + 1);
        assert(fs.take(k + 1).drop_last() =~= fs.take(k));
    } else {
        assert(fs.take(k) =~= fs);
    }
}

pub open spec fn non_gguf_needs_all() -> Seq<char> {
    "Non-GGUF model requires --all flag"@
}

/// Files and total size to download from a non-GGUF repository: every file
/// with a known size, and only with `download_all`.
pub fn calculate_non_gguf_download_summary(metadata: &ModelMetadata, download_all: bool) -> (r: Result<(Vec<String>, u64), HeadlessError>)
    requires
        download_all ==> sized_total(metadata.siblings@) <= u64::MAX,
    ensures
        !download_all ==> download_error_is(r, non_gguf_needs_all()),
        download_all ==> summary_is(r, sized_names(metadata.siblings@), sized_total(metadata.siblings@)),
{
    if !download_all {
        return Err(HeadlessError::DownloadError(String::from_str("Non-GGUF model requires --all flag")));
    }
    let fs = &metadata.siblings;
    let mut files: Vec<String> = Vec::new();
    let mut total: u64 = 0;
    let mut i: usize = 0;
    assert(strings_of(files@) =~= Seq::<Seq<char>>::empty());
    while i < fs.len()
        invariant
            i <= fs@.len(),
            download_all,
            fs == &metadata.siblings,
            sized_total(fs@) <= u64::MAX,
            strings_of(files@) == sized_names(fs@.take(i as int)),
            total == sized_total(fs@.take(i as int)),
        decreases fs.len() - i,
    {
        proof {
            assert(fs@.take(i + 1).drop_last() =~= fs@.take(i as int));
            assert(fs@.take(i + 1).last() == fs@[i as int]);
            lemma_sized_total_prefix(fs@, i as int + 1);
        }
        match fs[i].size {
            Some(s) => {
                let ghost before = files@;
                files.push(fs[i].rfilename.clone());
                assert(strings_of(files@) =~= strings_of(before).push(fs@[i as int].rfilename@));
                total = total + s;
            },
            None => {},
        }
        i += 1;
    }
    assert(fs@.take(fs@.len() as int) =~= fs@);
    Ok((files, total))
}

/// Console reporter settings: text or JSON output.
#[derive(Debug, Clone, Copy)]
pub struct ProgressReporter {
    json_mode: bool,
}

impl ProgressReporter {
    pub closed spec fn json(&self) -> bool {
        self.json_mode
    }

    /// A reporter in JSON or text mode.
    pub fn new(json_mode: bool) -> (r: ProgressReporter)
        ensures
            r.json() == json_mode,
    {
        ProgressReporter { json_mode }
    }

    /// Whether output is JSON.
    pub fn is_json(&self) -> (r: bool)
        ensures
            r == self.json(),
    {
        self.json_mode
    }
}

// ---------------------------------------------------------------------------
// Gated models and the download queue of a model
// ---------------------------------------------------------------------------

/// The `gated` field of a model's metadata, as the Hub sends it.
#[derive(Debug, Clone, PartialEq, Eq)]
pub enum GatedValue {
    Text(String),
    Flag(bool),
    /// Absent, null, or any other JSON value.
    Other,
}

/// Access to the model needs accepted terms: `"auto"`, `"manual"` or
/// `true`.
pub open spec fn is_gated(g: GatedValue) -> bool {
    match g {
        GatedValue::Text(t) => t@ == "auto"@ || t@ == "manual"@,
        GatedValue::Flag(b) => b,
        GatedValue::Other => false,
    }
}

pub open spec fn gated_message(id: Seq<char>) -> Seq<char> {
    "Model '"@ + id + "' is gated and requires authentication.\n\nTo download this model:\n1. Get a HuggingFace token from: https://huggingface.co/settings/tokens\n2. Accept the model terms at: https://huggingface.co/"@
        + id
        + "/\n3. Provide the token via --token flag or config file\n\nExample:\n  rust-hf-downloader --headless download \""@
        + id + "\" --all --token \"hf_...\"\n  \nOr add to ~/.config/jreb/config.toml:\n  hf_token = \"hf_...\""@
}

/// A gated model needs a nonempty token; the error explains how to get
/// one.
pub fn check_gated_model(model_id: &str, gated: &GatedValue, hf_token: &Option<String>) -> (r: Result<(), HeadlessError>)
    ensures
        is_gated(*gated) && (hf_token is None || hf_token->0@.len() == 0) <==> r is Err,
        r matches Err(e) ==> (e matches HeadlessError::AuthError(m) && m@ == gated_message(model_id@)),
{
    let gated_now = match gated {
        GatedValue::Text(t) => str_eq(t.as_str(), "auto") || str_eq(t.as_str(), "manual"),
        GatedValue::Flag(b) => *b,
        GatedValue::Other => false,
    };
    if !gated_now {
        return Ok(());
    }
    let missing = match hf_token {
        Some(t) => t.as_str().is_empty(),
        None => true,
    };
    if !missing {
        return Ok(());
    }
    let mut m = String::from_str("Model '");
    m.append(model_id);
    m.append("' is gated and requires authentication.\n\nTo download this model:\n1. Get a HuggingFace token from: https://huggingface.co/settings/tokens\n2. Accept the model terms at: https://huggingface.co/");
    m.append(model_id);
    m.append("/\n3. Provide the token via --token flag or config file\n\nExample:\n  rust-hf-downloader --headless download \"");
    m.append(model_id);
    m.append("\" --all --token \"hf_...\"\n  \nOr add to ~/.config/jreb/config.toml:\n  hf_token = \"hf_...\"");
    Err(HeadlessError::AuthError(m))
}

/// A file to queue: its name, size and expected SHA256.
pub type QueuedFile = (String, u64, Option<String>);

pub open spec fn queued_view(q: QueuedFile) -> (Seq<char>, u64, Option<Seq<char>>) {
    (q.0@, q.1, opt_str_view(q.2))
}

pub open spec fn info_queued(f: QuantizationInfo) -> (Seq<char>, u64, Option<Seq<char>>) {
    (f.filename@, f.size, opt_str_view(f.sha256))
}

/// The files of the groups, in order (those of type `filter` only, when
/// one is given; the type must match exactly).
pub open spec fn group_files_of(gs: Seq<QuantizationGroup>, filter: Option<Seq<char>>) -> Seq<(Seq<char>, u64, Option<Seq<char>>)>
    decreases gs.len(),
{
    if gs.len() == 0 {
        Seq::empty()
    } else {
        let prev = group_files_of(gs.drop_last(), filter);
        let g = gs.last();
        if filter is None || g.quant_type@ == filter->0 {
            prev + g.files@.map_values(|f: QuantizationInfo| info_queued(f))
        } else {
            prev
        }
    }
}

pub open spec fn repo_queued(f: RepoFile) -> (Seq<char>, u64, Option<Seq<char>>) {
    (f.rfilename@, size_or_zero(f.size), lfs_sha(f.lfs))
}

/// What a one-shot model download queues: for a GGUF model the files of
/// the chosen type (or of every type with `--all`); for another model every
/// listed file, which needs `--all`.
pub open spec fn model_queue_of(
    siblings: Seq<RepoFile>,
    has_gguf: bool,
    gs: Seq<QuantizationGroup>,
    filter: Option<Seq<char>>,
    download_all: bool,
) -> Result<Seq<(Seq<char>, u64, Option<Seq<char>>)>, Seq<char>> {
    if has_gguf {
        if filter is Some {
            Ok(group_files_of(gs, filter))
        } else if download_all {
            Ok(group_files_of(gs, None))
        } else {
            Err("Must specify --quantization or --all for GGUF models"@)
        }
    } else if download_all {
        Ok(siblings.map_values(|f: RepoFile| repo_queued(f)))
    } else {
        Err("Non-GGUF models require --all flag"@)
    }
}

fn copy_opt(o: &Option<String>) -> (r: Option<String>)
    ensures
        opt_str_view(r) == opt_str_view(*o),
{
    match o {
        Some(v) => Some(v.clone()),
        None => None,
    }
}

/// The files that a one-shot model download queues, in order, with the
/// message for a missing selector.
pub fn model_download_queue(
    metadata: &ModelMetadata,
    has_gguf: bool,
    quantizations: &[QuantizationGroup],
    filter: Option<&str>,
    download_all: bool,
) -> (r: Result<Vec<QueuedFile>, HeadlessError>)
    ensures
        match model_queue_of(
            metadata.siblings@,
            has_gguf,
            quantizations@,
            match filter {
                Some(f) => Some(f@),
                None => None,
            },
            download_all,
        ) {
            Ok(q) => r matches Ok(v) && v@.map_values(|x: QueuedFile| queued_view(x)) == q,
            Err(m) => r matches Err(e) && (e matches HeadlessError::DownloadError(t) && t@ == m),
        },
{
    let ghost fv: Option<Seq<char>> = match filter {
        Some(f) => Some(f@),
        None => None,
    };
    let mut out: Vec<QueuedFile> = Vec::new();
    if has_gguf {
        if filter.is_none() && !download_all {
            return Err(HeadlessError::DownloadError(String::from_str("Must specify --quantization or --all for GGUF models")));
        }
        let ghost used: Option<Seq<char>> = if filter is Some { fv } else { None };
        let mut i: usize = 0;
        while i < quantizations.len()
            invariant
                i <= quantizations@.len(),
                used == (if filter is Some { fv } else { None::<Seq<char>> }),
                fv == (match filter {
                    Some(f) => Some(f@),
                    None => None::<Seq<char>>,
                }),
                out@.map_values(|x: QueuedFile| queued_view(x)) == group_files_of(quantizations@.take(i as int), used),
            decreases quantizations.len() - i,
        {
            proof {
                assert(quantizations@.take(i + 1).drop_last() =~= quantizations@.take(i as int));
                assert(quantizations@.take(i + 1).last() == quantizations@[i as int]);
            }
            let g = &quantizations[i];
            let take = match filter {
                Some(f) => str_eq(g.quant_type.as_str(), f),
                None => true,
            };
            if take {
                let ghost before = out@.map_values(|x: QueuedFile| queued_view(x));
                let mut j: usize = 0;
                while j < g.files.len()
                    invariant
                        j <= g.files@.len(),
                        out@.map_values(|x: QueuedFile| queued_view(x)) == before + g.files@.take(j as int).map_values(
                            |f: QuantizationInfo| info_queued(f),
                        ),
                    decreases g.files.len() - j,
                {
                    let f = &g.files[j];
                    let ghost prev = out@;
                    out.push((f.filename.clone(), f.size, copy_opt(&f.sha256)));
                    proof {
                        assert(out@.map_values(|x: QueuedFile| queued_view(x)) =~= prev.map_values(
                            |x: QueuedFile| queued_view(x),
                        ).push(queued_view(out@.last())));
                        assert(g.files@.take(j + 1).map_values(|f: QuantizationInfo| info_queued(f)) =~= g.files@.take(
                            j as int,
                        ).map_values(|f: QuantizationInfo| info_queued(f)).push(info_queued(g.files@[j as int])));
                    }
                    j += 1;
                }
                proof {
                    assert(g.files@.take(g.files@.len() as int) =~= g.files@);
                }
            }
            i += 1;
        }
        proof {
            assert(quantizations@.take(quantizations@.len() as int) =~= quantizations@);
        }
        Ok(out)
    } else {
        if !download_all {
            return Err(HeadlessError::DownloadError(String::from_str("Non-GGUF models require --all flag")));
        }
        let s = &metadata.siblings;
        let mut i: usize = 0;
        while i < s.len()
            invariant
                i <= s@.len(),
                out@.map_values(|x: QueuedFile| queued_view(x)) == s@.take(i as int).map_values(|f: RepoFile| repo_queued(f)),
            decreases s.len() - i,
        {
            let f = &s[i];
            let ghost prev = out@;
            let size: u64 = match f.size {
                Some(n) => n,
                None => 0,
            };
            let sha: Option<String> = match &f.lfs {
                Some(l) => Some(l.oid.clone()),
                None => None,
            };
            out.push((f.rfilename.clone(), size, sha));
            proof {
                assert(out@.map_values(|x: QueuedFile| queued_view(x)) =~= prev.map_values(|x: QueuedFile| queued_view(x)).push(
                    queued_view(out@.last()),
                ));
                assert(s@.take(i + 1).map_values(|f: RepoFile| repo_queued(f)) =~= s@.take(i as int).map_values(
                    |f: RepoFile| repo_queued(f),
                ).push(repo_queued(s@[i as int])));
            }
            i += 1;
        }
        proof {
            assert(s@.take(s@.len() as int) =~= s@);
        }
        Ok(out)
    }
}

} // verus!
