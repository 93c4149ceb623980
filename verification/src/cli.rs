//! One-shot download mode: token precedence, model-ID checks, selector
//! parsing, resolving which files to download, and the run tally behind
//! the summary and exit code.

use crate::models::{FileOutcome, ModelMetadata, QuantizationGroup, QuantizationInfo, RepoFile, VerifyOutcome};
use crate::api::{lfs_sha, size_or_zero};
use crate::quant::opt_str_view;
use crate::utils::{format_size, size_text};
use crate::text::{
    chars_eq, chars_eq_ignore_ascii_case, clone_strings, decimal, decimal_string, ends_with,
    eq_ignore_ascii_case, has_prefix, has_suffix, push_chars, split_chars, split_on,
    to_chars, copy_range, contains_seq, push_char,
    str_contains, str_drop, str_starts_with,
};
use vstd::prelude::*;

verus! {

/// All requested files present; verification passed or skipped.
pub const EXIT_OK: i32 = 0;

/// A download failed, or a hash mismatched.
pub const EXIT_FAILURE: i32 = 1;

/// Authentication required.
pub const EXIT_AUTH: i32 = 2;

/// Usage error or ambiguous selection.
pub const EXIT_USAGE: i32 = 64;

/// Interrupted by SIGINT.
pub const EXIT_INTERRUPTED: i32 = 130;

/// What an interrupted run reports.
pub const MSG_INTERRUPTED: &'static str = "interrupted by SIGINT; unfinished files stay registered as incomplete and restart from scratch on the next run";

/// Parsed command line (no subcommand runs the interactive interface).
#[derive(Debug)]
pub struct Cli {
    pub command: Option<Command>,
}

/// Subcommands.
#[derive(Debug)]
pub enum Command {
    /// One-shot model download.
    Download(DownloadArgs),
}

/// Arguments of the `download` subcommand.
#[derive(Debug, Clone)]
pub struct DownloadArgs {
    pub model_id: String,
    pub quant: Option<String>,
    pub file: Vec<String>,
    pub all: bool,
    pub output: Option<String>,
    pub token: Option<String>,
    pub skip_verification: bool,
    pub json: bool,
    pub quiet: bool,
}

// ---------------------------------------------------------------------------
// Token and model ID
// ---------------------------------------------------------------------------

/// A present, nonempty token.
pub open spec fn usable(t: Option<String>) -> bool {
    t is Some && t->0@.len() > 0
}

/// Token precedence: the flag, then the environment, then the config file;
/// empty strings count as absent.
pub open spec fn merged_token(flag: Option<String>, env: Option<String>, file: Option<String>) -> Option<Seq<char>> {
    if usable(flag) {
        Some(flag->0@)
    } else if usable(env) {
        Some(env->0@)
    } else if usable(file) {
        Some(file->0@)
    } else {
        None
    }
}

fn nonempty_token(t: Option<String>) -> (r: Option<String>)
    ensures
        usable(t) ==> r is Some && r->0@ == t->0@,
        !usable(t) ==> r is None,
{
    match t {
        Some(s) => if s.as_str().is_empty() {
            None
        } else {
            Some(s)
        },
        None => None,
    }
}

/// Token precedence: `--token` flag, then `$HF_TOKEN`, then the config file.
pub fn merge_token(flag: Option<String>, env: Option<String>, file: Option<String>) -> (r: Option<String>)
    ensures
        opt_str_view(r) == merged_token(flag, env, file),
{
    let ghost (f0, e0, c0) = (flag, env, file);
    match nonempty_token(flag) {
        Some(t) => return Some(t),
        None => {},
    }
    match nonempty_token(env) {
        Some(t) => return Some(t),
        None => {},
    }
    nonempty_token(file)
}

/// A model ID is exactly `author/name` with both parts nonempty.
pub open spec fn is_model_id(s: Seq<char>) -> bool {
    let parts = split_on(s, '/');
    parts.len() == 2 && parts[0].len() > 0 && parts[1].len() > 0
}

/// Whether the characters form a model ID.
pub fn model_id_chars_valid(cs: &[char]) -> (r: bool)
    ensures
        r == is_model_id(cs@),
{
    let parts = split_chars(cs, '/');
    parts.len() == 2 && parts[0].len() > 0 && parts[1].len() > 0
}

/// A model ID must be exactly `author/name` with nonempty parts.
pub fn valid_model_id(model_id: &str) -> (r: bool)
    ensures
        r == is_model_id(model_id@),
{
    let cs = to_chars(model_id);
    model_id_chars_valid(cs.as_slice())
}

// ---------------------------------------------------------------------------
// Selectors
// ---------------------------------------------------------------------------

/// A concrete file selected for download.
#[derive(Debug, Clone, PartialEq, Eq)]
pub struct FileSpec {
    pub filename: String,
    pub size_bytes: u64,
    pub sha256: Option<String>,
}

/// What the user asked for.
#[derive(Debug, Clone, PartialEq, Eq)]
pub enum Selector {
    /// No selector: valid only when the repo has exactly one file.
    Default,
    Quant(String),
    Files(Vec<String>),
    All,
}

pub open spec fn msg_selector_conflict() -> Seq<char> {
    "use only one of --quant, --file, or --all"@
}

/// How many selectors the arguments give.
pub open spec fn selector_count(args: DownloadArgs) -> int {
    (if args.quant is Some { 1int } else { 0int }) + (if args.file@.len() > 0 { 1int } else { 0int })
        + (if args.all { 1int } else { 0int })
}

/// Derives the selector from the arguments; more than one of `--quant`,
/// `--file`, `--all` is an error.
pub fn parse_selector(args: &DownloadArgs) -> (r: Result<Selector, String>)
    ensures
        selector_count(*args) == 0 <==> r == Ok::<Selector, String>(Selector::Default),
        selector_count(*args) > 1 <==> r is Err,
        r is Err ==> r->Err_0@ == msg_selector_conflict(),
        selector_count(*args) == 1 && args.quant is Some ==> (r matches Ok(Selector::Quant(q))
            && q@ == args.quant->0@),
        selector_count(*args) == 1 && args.all ==> r == Ok::<Selector, String>(Selector::All),
        selector_count(*args) == 1 && args.file@.len() > 0 ==> (r matches Ok(Selector::Files(fs))
            && fs@.len() == args.file@.len() && forall|i: int|
            0 <= i < fs@.len() ==> (#[trigger] fs@[i])@ == args.file@[i]@),
{
    let n: u8 = (if args.quant.is_some() { 1u8 } else { 0u8 }) + (if args.file.len() > 0 { 1u8 } else { 0u8 })
        + (if args.all { 1u8 } else { 0u8 });
    if n == 0 {
        Ok(Selector::Default)
    } else if n == 1 {
        match &args.quant {
            Some(q) => Ok(Selector::Quant(q.clone())),
            None => if args.all {
                Ok(Selector::All)
            } else {
                Ok(Selector::Files(clone_strings(&args.file)))
            },
        }
    } else {
        let m = "use only one of --quant, --file, or --all";
        Err(String::from_str(m))
    }
}

// ---------------------------------------------------------------------------
// Resolution
// ---------------------------------------------------------------------------

/// A selected file as plain values.
pub struct FileSpecView {
    pub filename: Seq<char>,
    pub size_bytes: u64,
    pub sha256: Option<Seq<char>>,
}

pub open spec fn spec_view(f: FileSpec) -> FileSpecView {
    FileSpecView { filename: f.filename@, size_bytes: f.size_bytes, sha256: opt_str_view(f.sha256) }
}

pub open spec fn specs_view(v: Seq<FileSpec>) -> Seq<FileSpecView> {
    v.map_values(|f: FileSpec| spec_view(f))
}

/// A listed file is downloadable: its size is known and it is not a
/// directory row.
pub open spec fn is_downloadable(f: RepoFile) -> bool {
    f.size is Some && !has_suffix(f.rfilename@, seq!['/'])
}

/// Downloadable files of a listing, in order.
pub open spec fn available_of(files: Seq<RepoFile>) -> Seq<FileSpecView>
    decreases files.len(),
{
    if files.len() == 0 {
        Seq::<FileSpecView>::empty()
    } else {
        let r = available_of(files.drop_last());
        let f = files.last();
        if is_downloadable(f) {
            r.push(FileSpecView { filename: f.rfilename@, size_bytes: size_or_zero(f.size), sha256: lfs_sha(f.lfs) })
        } else {
            r
        }
    }
}

/// Index of the first file named `name`, or -1.
pub open spec fn first_named(av: Seq<FileSpecView>, name: Seq<char>, from: int) -> int
    decreases av.len() - from,
{
    if from < 0 || from >= av.len() {
        -1
    } else if av[from].filename == name {
        from
    } else {
        first_named(av, name, from + 1)
    }
}

/// Files named by `names[0..k]`: `Ok` with the first match of each, or
/// `Err` with the first name that matches nothing.
pub open spec fn pick_named(av: Seq<FileSpecView>, names: Seq<Seq<char>>, k: int) -> Result<Seq<FileSpecView>, Seq<char>>
    decreases k,
{
    if k <= 0 {
        Ok(Seq::<FileSpecView>::empty())
    } else {
        match pick_named(av, names, k - 1) {
            Err(n) => Err(n),
            Ok(prev) => {
                let i = first_named(av, names[k - 1], 0);
                if i >= 0 {
                    Ok(prev.push(av[i]))
                } else {
                    Err(names[k - 1])
                }
            },
        }
    }
}

pub open spec fn info_spec(q: QuantizationInfo) -> FileSpecView {
    FileSpecView { filename: q.filename@, size_bytes: q.size, sha256: opt_str_view(q.sha256) }
}

/// Files of every group whose type equals `q` up to ASCII case, in order.
pub open spec fn pick_quant(gs: Seq<QuantizationGroup>, q: Seq<char>) -> Seq<FileSpecView>
    decreases gs.len(),
{
    if gs.len() == 0 {
        Seq::<FileSpecView>::empty()
    } else {
        let prev = pick_quant(gs.drop_last(), q);
        let g = gs.last();
        if eq_ignore_ascii_case(g.quant_type@, q) {
            prev + g.files@.map_values(|i: QuantizationInfo| info_spec(i))
        } else {
            prev
        }
    }
}

/// The files with their first occurrence of each file name kept.
pub open spec fn dedup_by_name(v: Seq<FileSpecView>) -> Seq<FileSpecView>
    decreases v.len(),
{
    if v.len() == 0 {
        Seq::<FileSpecView>::empty()
    } else {
        let d = dedup_by_name(v.drop_last());
        if exists|i: int| 0 <= i < d.len() && (#[trigger] d[i]).filename == v.last().filename {
            d
        } else {
            d.push(v.last())
        }
    }
}

/// Why a selection could not be resolved.
#[derive(Debug, Clone, PartialEq, Eq)]
pub enum ResolveError {
    /// No selector given and the repo has more than one (or no) file.
    Ambiguous { available: Vec<FileSpec> },
    /// The requested selector matched nothing.
    NoFilesMatch { selector: String, available: Vec<FileSpec> },
}

pub open spec fn file_flag() -> Seq<char> {
    "--file "@
}

pub open spec fn quant_flag() -> Seq<char> {
    "--quant "@
}

/// The outcome that [`resolve_files`] owes for a listing, groups and
/// selector: `Ok` with the selected files (deduplicated by name), or the
/// error kind with the selector text for `NoFilesMatch`.
pub enum Resolution {
    Files(Seq<FileSpecView>),
    Ambiguous,
    NoMatch(Seq<char>),
}

pub open spec fn resolution(files: Seq<RepoFile>, quants: Seq<QuantizationGroup>, sel: Selector) -> Resolution {
    let av = available_of(files);
    match sel {
        Selector::Files(names) => match pick_named(av, names@.map_values(|n: String| n@), names@.len() as int) {
            Ok(v) => Resolution::Files(dedup_by_name(v)),
            Err(n) => Resolution::NoMatch(file_flag() + n),
        },
        Selector::Quant(q) => {
            let v = pick_quant(quants, q@);
            if v.len() > 0 {
                Resolution::Files(dedup_by_name(v))
            } else {
                Resolution::NoMatch(quant_flag() + q@)
            }
        },
        Selector::All => Resolution::Files(dedup_by_name(av)),
        Selector::Default => if av.len() == 1 {
            Resolution::Files(dedup_by_name(av))
        } else {
            Resolution::Ambiguous
        },
    }
}

pub open spec fn error_available(e: ResolveError) -> Seq<FileSpec> {
    match e {
        ResolveError::Ambiguous { available } => available@,
        ResolveError::NoFilesMatch { available, .. } => available@,
    }
}

fn spec_of_repo_file(f: &RepoFile) -> (r: FileSpec)
    requires
        f.size is Some,
    ensures
        spec_view(r) == (FileSpecView { filename: f.rfilename@, size_bytes: size_or_zero(f.size), sha256: lfs_sha(f.lfs) }),
{
    FileSpec {
        filename: f.rfilename.clone(),
        size_bytes: match f.size {
            Some(s) => s,
            None => 0,
        },
        sha256: match &f.lfs {
            Some(l) => Some(l.oid.clone()),
            None => None,
        },
    }
}

fn copy_spec(f: &FileSpec) -> (r: FileSpec)
    ensures
        spec_view(r) == spec_view(*f),
{
    FileSpec {
        filename: f.filename.clone(),
        size_bytes: f.size_bytes,
        sha256: match &f.sha256 {
            Some(s) => Some(s.clone()),
            None => None,
        },
    }
}

proof fn lemma_specs_push(s: Seq<FileSpec>, x: FileSpec)
    ensures
        specs_view(s.push(x)) == specs_view(s).push(spec_view(x)),
{
    assert(specs_view(s.push(x)) =~= specs_view(s).push(spec_view(x)));
}

fn copy_specs(v: &Vec<FileSpec>) -> (r: Vec<FileSpec>)
    ensures
        specs_view(r@) == specs_view(v@),
{
    let mut r: Vec<FileSpec> = Vec::new();
    let mut i: usize = 0;
    while i < v.len()
        invariant
            i <= v@.len(),
            specs_view(r@) == specs_view(v@.take(i as int)),
        decreases v.len() - i,
    {
        let ghost before = r@;
        let c = copy_spec(&v[i]);
        r.push(c);
        proof {
            lemma_specs_push(before, c);
            assert(v@.take(i + 1) =~= v@.take(i as int).push(v@[i as int]));
            lemma_specs_push(v@.take(i as int), v@[i as int]);
        }
        i += 1;
    }
    assert(v@.take(v@.len() as int) =~= v@);
    r
}

fn available_files(files: &Vec<RepoFile>) -> (r: Vec<FileSpec>)
    ensures
        specs_view(r@) == available_of(files@),
{
    let mut r: Vec<FileSpec> = Vec::new();
    let mut k: usize = 0;
    while k < files.len()
        invariant
            k <= files@.len(),
            specs_view(r@) == available_of(files@.take(k as int)),
        decreases files.len() - k,
    {
        proof {
            assert(files@.take(k + 1).drop_last() =~= files@.take(k as int));
            assert(files@.take(k + 1).last() == files@[k as int]);
        }
        let f = &files[k];
        let name = to_chars(f.rfilename.as_str());
        let slash = vec!['/'];
        assert(slash@ =~= seq!['/']);
        if f.size.is_some() && !ends_with(name.as_slice(), slash.as_slice()) {
            r.push(spec_of_repo_file(f));
            assert(specs_view(r@) =~= available_of(files@.take(k + 1)));
        } else {
            assert(specs_view(r@) =~= available_of(files@.take(k + 1)));
        }
        k += 1;
    }
    assert(files@.take(files@.len() as int) =~= files@);
    r
}

fn string_eq(a: &String, b: &String) -> (r: bool)
    ensures
        r == (a@ == b@),
{
    let x = to_chars(a.as_str());
    let y = to_chars(b.as_str());
    chars_eq(x.as_slice(), y.as_slice())
}

/// First file of `av` named `name`.
fn find_named(av: &Vec<FileSpec>, name: &String) -> (r: Option<usize>)
    ensures
        match r {
            Some(i) => i as int == first_named(specs_view(av@), name@, 0) && i < av@.len(),
            None => first_named(specs_view(av@), name@, 0) == -1,
        },
{
    let ghost sv = specs_view(av@);
    let mut i: usize = 0;
    while i < av.len()
        invariant
            i <= av@.len(),
            sv == specs_view(av@),
            first_named(sv, name@, i as int) == first_named(sv, name@, 0),
        decreases av.len() - i,
    {
        if string_eq(&av[i].filename, name) {
            return Some(i);
        }
        i += 1;
    }
    None
}

/// Keeps the first file of each name.
fn dedup_specs(v: Vec<FileSpec>) -> (r: Vec<FileSpec>)
    ensures
        specs_view(r@) == dedup_by_name(specs_view(v@)),
{
    let mut out: Vec<FileSpec> = Vec::new();
    let mut k: usize = 0;
    while k < v.len()
        invariant
            k <= v@.len(),
            specs_view(out@) == dedup_by_name(specs_view(v@.take(k as int))),
        decreases v.len() - k,
    {
        let ghost prev = specs_view(v@.take(k as int));
        proof {
            assert(specs_view(v@.take(k + 1)).drop_last() =~= prev);
            assert(specs_view(v@.take(k + 1)).last() == spec_view(v@[k as int]));
        }
        let mut seen = false;
        let mut j: usize = 0;
        while j < out.len() && !seen
            invariant
                k < v@.len(),
                j <= out@.len(),
                seen ==> j < out@.len() && out@[j as int].filename@ == v@[k as int].filename@,
                forall|m: int| 0 <= m < j ==> (#[trigger] out@[m]).filename@ != v@[k as int].filename@,
            decreases out.len() - j + (if seen { 0int } else { 1int }),
        {
            if string_eq(&out[j].filename, &v[k].filename) {
                seen = true;
            } else {
                j += 1;
            }
        }
        let ghost d = specs_view(out@);
        if seen {
            proof {
                assert(d[j as int].filename == spec_view(v@[k as int]).filename);
            }
        } else {
            proof {
                assert forall|m: int| 0 <= m < d.len() implies (#[trigger] d[m]).filename != spec_view(
                    v@[k as int],
                ).filename by {
                    assert(d[m] == spec_view(out@[m]));
                }
            }
            out.push(copy_spec(&v[k]));
            assert(specs_view(out@) =~= d.push(spec_view(v@[k as int])));
        }
        k += 1;
    }
    assert(v@.take(v@.len() as int) =~= v@);
    out
}

fn specs_of_group(g: &QuantizationGroup, out: &mut Vec<FileSpec>)
    ensures
        specs_view(final(out)@) == specs_view(old(out)@) + g.files@.map_values(
            |i: QuantizationInfo| info_spec(i),
        ),
{
    let mut i: usize = 0;
    while i < g.files.len()
        invariant
            i <= g.files@.len(),
            specs_view(out@) == specs_view(old(out)@) + g.files@.take(i as int).map_values(
                |q: QuantizationInfo| info_spec(q),
            ),
        decreases g.files.len() - i,
    {
        let q = &g.files[i];
        let f = FileSpec {
            filename: q.filename.clone(),
            size_bytes: q.size,
            sha256: match &q.sha256 {
                Some(s) => Some(s.clone()),
                None => None,
            },
        };
        let ghost before = out@;
        proof {
            assert(info_spec(g.files@[i as int]) == spec_view(f));
        }
        out.push(f);
        proof {
            lemma_specs_push(before, f);
            assert(g.files@.take(i + 1).map_values(|q: QuantizationInfo| info_spec(q))
                =~= g.files@.take(i as int).map_values(|q: QuantizationInfo| info_spec(q)).push(
                info_spec(g.files@[i as int]),
            ));
            assert(specs_view(out@) =~= specs_view(old(out)@) + g.files@.take(i + 1).map_values(
                |q: QuantizationInfo| info_spec(q),
            ));
        }
        i += 1;
    }
    assert(g.files@.take(g.files@.len() as int) =~= g.files@);
}

/// Resolves which files to download from the repository listing, the
/// quantization groups and the selector: `--file` names pick the first
/// file of each name (an unknown name fails as `NoFilesMatch`), `--quant`
/// picks every file of the groups whose type matches ignoring ASCII case
/// (none fails as `NoFilesMatch`), `--all` picks every downloadable file,
/// and no selector picks the only downloadable file (otherwise
/// `Ambiguous`).  Repeated names are kept once; errors carry the full list
/// of downloadable files.
pub fn resolve_files(metadata: &ModelMetadata, quants: &[QuantizationGroup], selector: &Selector) -> (r: Result<Vec<FileSpec>, ResolveError>)
    ensures
        match resolution(metadata.siblings@, quants@, *selector) {
            Resolution::Files(v) => r is Ok && specs_view(r->Ok_0@) == v,
            Resolution::Ambiguous => r matches Err(ResolveError::Ambiguous { .. }),
            Resolution::NoMatch(sel) => r matches Err(ResolveError::NoFilesMatch { selector, .. })
                && selector@ == sel,
        },
        r is Err ==> specs_view(error_available(r->Err_0)) == available_of(metadata.siblings@),
{
    let available = available_files(&metadata.siblings);
    let ghost av = specs_view(available@);
    match selector {
        Selector::Files(names) => {
            let ghost nv = names@.map_values(|n: String| n@);
            let mut out: Vec<FileSpec> = Vec::new();
            let mut k: usize = 0;
            assert(specs_view(out@) =~= Seq::<FileSpecView>::empty());
            while k < names.len()
                invariant
                    k <= names@.len(),
                    av == specs_view(available@),
                    av == available_of(metadata.siblings@),
                    *selector == Selector::Files(*names),
                    nv == names@.map_values(|n: String| n@),
                    pick_named(av, nv, k as int) == Ok::<Seq<FileSpecView>, Seq<char>>(specs_view(out@)),
                decreases names.len() - k,
            {
                match find_named(&available, &names[k]) {
                    Some(i) => {
                        let ghost before = specs_view(out@);
                        out.push(copy_spec(&available[i]));
                        assert(specs_view(out@) =~= before.push(av[i as int]));
                        assert(nv[k as int] == names@[k as int]@);
                    },
                    None => {
                        assert(nv[k as int] == names@[k as int]@);
                        let mut sel = String::from_str("--file ");
                        sel.append(names[k].as_str());
                        proof {
                            assert(pick_named(av, nv, k + 1) == Err::<Seq<FileSpecView>, Seq<char>>(nv[k as int]));
                            lemma_pick_named_err(av, nv, k + 1, names@.len() as int);
                            assert(sel@ == file_flag() + nv[k as int]);
                            assert(resolution(metadata.siblings@, quants@, *selector) == Resolution::NoMatch(file_flag() + nv[k as int]));
                        }
                        return Err(ResolveError::NoFilesMatch { selector: sel, available });
                    },
                }
                k += 1;
            }
            Ok(dedup_specs(out))
        },
        Selector::Quant(q) => {
            let mut out: Vec<FileSpec> = Vec::new();
            let qc = to_chars(q.as_str());
            let mut k: usize = 0;
            while k < quants.len()
                invariant
                    k <= quants@.len(),
                    qc@ == q@,
                    specs_view(out@) == pick_quant(quants@.take(k as int), q@),
                decreases quants.len() - k,
            {
                proof {
                    assert(quants@.take(k + 1).drop_last() =~= quants@.take(k as int));
                    assert(quants@.take(k + 1).last() == quants@[k as int]);
                }
                let gq = to_chars(quants[k].quant_type.as_str());
                if chars_eq_ignore_ascii_case(gq.as_slice(), qc.as_slice()) {
                    specs_of_group(&quants[k], &mut out);
                }
                k += 1;
            }
            assert(quants@.take(quants@.len() as int) =~= quants@);
            if out.len() == 0 {
                let mut sel = String::from_str("--quant ");
                sel.append(q.as_str());
                return Err(ResolveError::NoFilesMatch { selector: sel, available });
            }
            Ok(dedup_specs(out))
        },
        Selector::All => {
            let all = copy_specs(&available);
            Ok(dedup_specs(all))
        },
        Selector::Default => {
            if available.len() == 1 {
                let all = copy_specs(&available);
                Ok(dedup_specs(all))
            } else {
                Err(ResolveError::Ambiguous { available })
            }
        },
    }
}

proof fn lemma_pick_named_err(av: Seq<FileSpecView>, names: Seq<Seq<char>>, k: int, n: int)
    requires
        0 < k <= n,
        pick_named(av, names, k) is Err,
    ensures
        pick_named(av, names, n) == pick_named(av, names, k),
    decreases n - k,
{
    if k < n {
        lemma_pick_named_err(av, names, k + 1, n);
    }
}

impl ResolveError {
    /// Machine-readable error code.
    pub fn code(&self) -> (r: &'static str)
        ensures
            r@ == match self {
                ResolveError::Ambiguous { .. } => "ambiguous"@,
                ResolveError::NoFilesMatch { .. } => "no_files_match"@,
            },
    {
        match self {
            ResolveError::Ambiguous { .. } => "ambiguous",
            ResolveError::NoFilesMatch { .. } => "no_files_match",
        }
    }

    /// Human-readable error message.
    pub fn message(&self) -> (r: String)
        ensures
            r@ == match self {
                ResolveError::Ambiguous { available } => "model has "@ + decimal(available@.len()) + " downloadable file(s); specify --quant <TYPE>, --file <PATH>, or --all"@,
                ResolveError::NoFilesMatch { selector, .. } => "no downloadable file matches "@ + selector@,
            },
    {
        match self {
            ResolveError::Ambiguous { available } => {
                let mut m = String::from_str("model has ");
                let n = decimal_string(available.len() as u64);
                m.append(n.as_str());
                m.append(" downloadable file(s); specify --quant <TYPE>, --file <PATH>, or --all");
                m
            },
            ResolveError::NoFilesMatch { selector, .. } => {
                let mut m = String::from_str("no downloadable file matches ");
                m.append(selector.as_str());
                m
            },
        }
    }

    /// The downloadable files listed with the error.
    pub fn available(&self) -> (r: &Vec<FileSpec>)
        ensures
            r@ == error_available(*self),
    {
        match self {
            ResolveError::Ambiguous { available } => available,
            ResolveError::NoFilesMatch { available, .. } => available,
        }
    }
}

// ---------------------------------------------------------------------------
// Summary and reporting values
// ---------------------------------------------------------------------------

/// A file as the JSON events list it.
#[derive(Debug, Clone, PartialEq, Eq)]
pub struct FileDto {
    pub filename: String,
    pub size_bytes: u64,
    pub sha256: Option<String>,
}

impl<'a> From<&'a FileSpec> for FileDto {
    fn from(f: &'a FileSpec) -> (r: FileDto) {
        FileDto {
            filename: f.filename.clone(),
            size_bytes: f.size_bytes,
            sha256: match &f.sha256 {
                Some(s) => Some(s.clone()),
                None => None,
            },
        }
    }
}

impl<'a> vstd::std_specs::convert::FromSpecImpl<&'a FileSpec> for FileDto {
    open spec fn obeys_from_spec() -> bool {
        true
    }

    open spec fn from_spec(f: &'a FileSpec) -> FileDto {
        FileDto { filename: f.filename, size_bytes: f.size_bytes, sha256: f.sha256 }
    }
}

/// Totals printed at the end of a run.
#[derive(Debug, Clone, Copy, PartialEq, Eq, Structural)]
pub struct Summary {
    pub files: usize,
    pub downloaded: usize,
    pub skipped: usize,
    pub verified: usize,
    pub failed: usize,
    pub hash_mismatch: usize,
    pub total_bytes: u64,
}

/// An event that the run tally produces from an engine outcome, for the
/// reporter to render.
#[derive(Debug, Clone)]
pub enum Notice {
    /// A file finished: `status` is `"downloaded"` or `"already_exists"`.
    FileComplete { filename: String, status: &'static str, bytes: u64 },
    /// A hash check finished; the hashes are given on a mismatch only.
    VerificationResult {
        filename: String,
        ok: bool,
        expected_sha256: Option<String>,
        actual_sha256: Option<String>,
    },
    /// An error event with its machine-readable code.
    Error { code: String, message: String },
}

pub open spec fn auth_message(model_id: Seq<char>) -> Seq<char> {
    "authentication required for "@ + model_id + " (pass --token or set $HF_TOKEN)"@
}

pub open spec fn failure_message(filename: Seq<char>, reason: Seq<char>) -> Seq<char> {
    filename + ": "@ + reason
}

fn make_auth_message(model_id: &str) -> (r: String)
    ensures
        r@ == auth_message(model_id@),
{
    let mut m = String::from_str("authentication required for ");
    m.append(model_id);
    m.append(" (pass --token or set $HF_TOKEN)");
    m
}

fn make_failure_message(filename: &str, reason: &str) -> (r: String)
    ensures
        r@ == failure_message(filename@, reason@),
{
    let mut m = String::from_str(filename);
    m.append(": ");
    m.append(reason);
    m
}

// ---------------------------------------------------------------------------
// Run tally
// ---------------------------------------------------------------------------

/// Everything the monitor loop accumulates for the summary and exit code.
#[derive(Debug, Clone)]
pub struct RunTally {
    pub files: usize,
    pub downloaded: usize,
    pub skipped: usize,
    pub verified: usize,
    pub failed: usize,
    pub hash_mismatch: usize,
    pub total_bytes: u64,
    pub auth_required: bool,
    pub failures: Vec<String>,
    pub mismatches: Vec<String>,
}

/// Exit code of a finished run: authentication first, then any failure or
/// hash mismatch, else success.
pub open spec fn exit_code_of(auth_required: bool, failed: int, hash_mismatch: int) -> i32 {
    if auth_required {
        EXIT_AUTH
    } else if failed > 0 || hash_mismatch > 0 {
        EXIT_FAILURE
    } else {
        EXIT_OK
    }
}

/// The counters of a tally, as a summary.
pub open spec fn summary_of(t: RunTally) -> Summary {
    Summary {
        files: t.files,
        downloaded: t.downloaded,
        skipped: t.skipped,
        verified: t.verified,
        failed: t.failed,
        hash_mismatch: t.hash_mismatch,
        total_bytes: t.total_bytes,
    }
}

/// Counters below their limit, so one more event can be counted.
pub open spec fn tally_has_room(t: RunTally) -> bool {
    &&& t.downloaded < usize::MAX
    &&& t.skipped < usize::MAX
    &&& t.verified < usize::MAX
    &&& t.failed < usize::MAX
    &&& t.hash_mismatch < usize::MAX
}

impl RunTally {
    /// A tally for `files` files of `total_bytes` bytes, nothing counted yet.
    pub fn new(files: usize, total_bytes: u64) -> (r: RunTally)
        ensures
            r.files == files,
            r.total_bytes == total_bytes,
            r.downloaded == 0,
            r.skipped == 0,
            r.verified == 0,
            r.failed == 0,
            r.hash_mismatch == 0,
            !r.auth_required,
            r.failures@.len() == 0,
            r.mismatches@.len() == 0,
    {
        RunTally {
            files,
            downloaded: 0,
            skipped: 0,
            verified: 0,
            failed: 0,
            hash_mismatch: 0,
            total_bytes,
            auth_required: false,
            failures: Vec::new(),
            mismatches: Vec::new(),
        }
    }

    /// Process exit code for the run.
    pub fn exit_code(&self) -> (r: i32)
        ensures
            r == exit_code_of(self.auth_required, self.failed as int, self.hash_mismatch as int),
    {
        if self.auth_required {
            EXIT_AUTH
        } else if self.failed > 0 || self.hash_mismatch > 0 {
            EXIT_FAILURE
        } else {
            EXIT_OK
        }
    }

    /// The summary printed at the end of the run.
    pub fn summary(&self) -> (r: Summary)
        ensures
            r == summary_of(*self),
    {
        Summary {
            files: self.files,
            downloaded: self.downloaded,
            skipped: self.skipped,
            verified: self.verified,
            failed: self.failed,
            hash_mismatch: self.hash_mismatch,
            total_bytes: self.total_bytes,
        }
    }
}

/// Counts one streamed download outcome and returns the event to report.
pub fn apply_outcome_event(outcome: &FileOutcome, tally: &mut RunTally) -> (r: Notice)
    requires
        tally_has_room(*old(tally)),
    ensures
        final(tally).files == old(tally).files,
        final(tally).total_bytes == old(tally).total_bytes,
        final(tally).verified == old(tally).verified,
        final(tally).hash_mismatch == old(tally).hash_mismatch,
        final(tally).mismatches@ == old(tally).mismatches@,
        match *outcome {
            FileOutcome::Complete { filename, bytes } => {
                &&& final(tally).downloaded == old(tally).downloaded + 1
                &&& final(tally).skipped == old(tally).skipped
                &&& final(tally).failed == old(tally).failed
                &&& final(tally).auth_required == old(tally).auth_required
                &&& final(tally).failures@ == old(tally).failures@
                &&& r matches Notice::FileComplete { filename: f, status, bytes: b }
                    && f@ == filename@ && status@ == "downloaded"@ && b == bytes
            },
            FileOutcome::AlreadyExists { filename, bytes } => {
                &&& final(tally).downloaded == old(tally).downloaded
                &&& final(tally).skipped == old(tally).skipped + 1
                &&& final(tally).failed == old(tally).failed
                &&& final(tally).auth_required == old(tally).auth_required
                &&& final(tally).failures@ == old(tally).failures@
                &&& r matches Notice::FileComplete { filename: f, status, bytes: b }
                    && f@ == filename@ && status@ == "already_exists"@ && b == bytes
            },
            FileOutcome::AuthRequired { model_id } => {
                &&& final(tally).downloaded == old(tally).downloaded
                &&& final(tally).skipped == old(tally).skipped
                &&& final(tally).failed == old(tally).failed
                &&& final(tally).auth_required
                &&& final(tally).failures@ == old(tally).failures@
                &&& r matches Notice::Error { code, message }
                    && code@ == "auth_required"@ && message@ == auth_message(model_id@)
            },
            FileOutcome::Failed { filename, reason } => {
                &&& final(tally).downloaded == old(tally).downloaded
                &&& final(tally).skipped == old(tally).skipped
                &&& final(tally).failed == old(tally).failed + 1
                &&& final(tally).auth_required == old(tally).auth_required
                &&& final(tally).failures@.len() == old(tally).failures@.len() + 1
                &&& final(tally).failures@.drop_last() == old(tally).failures@
                &&& final(tally).failures@.last()@ == failure_message(filename@, reason@)
                &&& r matches Notice::Error { code, message }
                    && code@ == "download_failed"@ && message@ == failure_message(filename@, reason@)
            },
        },
{
    match outcome {
        FileOutcome::Complete { filename, bytes } => {
            tally.downloaded = tally.downloaded + 1;
            Notice::FileComplete { filename: filename.clone(), status: "downloaded", bytes: *bytes }
        },
        FileOutcome::AlreadyExists { filename, bytes } => {
            tally.skipped = tally.skipped + 1;
            Notice::FileComplete { filename: filename.clone(), status: "already_exists", bytes: *bytes }
        },
        FileOutcome::AuthRequired { model_id } => {
            tally.auth_required = true;
            Notice::Error { code: String::from_str("auth_required"), message: make_auth_message(model_id.as_str()) }
        },
        FileOutcome::Failed { filename, reason } => {
            tally.failed = tally.failed + 1;
            let m = make_failure_message(filename.as_str(), reason.as_str());
            tally.failures.push(m.clone());
            Notice::Error { code: String::from_str("download_failed"), message: m }
        },
    }
}

/// Number of outcomes of each kind, and the failure messages in order.
pub open spec fn count_complete(os: Seq<FileOutcome>) -> nat
    decreases os.len(),
{
    if os.len() == 0 {
        0
    } else {
        count_complete(os.drop_last()) + if os.last() is Complete { 1nat } else { 0nat }
    }
}

pub open spec fn count_existing(os: Seq<FileOutcome>) -> nat
    decreases os.len(),
{
    if os.len() == 0 {
        0
    } else {
        count_existing(os.drop_last()) + if os.last() is AlreadyExists { 1nat } else { 0nat }
    }
}

pub open spec fn count_failed(os: Seq<FileOutcome>) -> nat
    decreases os.len(),
{
    if os.len() == 0 {
        0
    } else {
        count_failed(os.drop_last()) + if os.last() is Failed { 1nat } else { 0nat }
    }
}

pub open spec fn any_auth(os: Seq<FileOutcome>) -> bool {
    exists|i: int| 0 <= i < os.len() && #[trigger] os[i] is AuthRequired
}

pub open spec fn failure_messages(os: Seq<FileOutcome>) -> Seq<Seq<char>>
    decreases os.len(),
{
    if os.len() == 0 {
        Seq::<Seq<char>>::empty()
    } else {
        let prev = failure_messages(os.drop_last());
        match os.last() {
            FileOutcome::Failed { filename, reason } => prev.push(failure_message(filename@, reason@)),
            _ => prev,
        }
    }
}

pub open spec fn strings_view(v: Seq<String>) -> Seq<Seq<char>> {
    v.map_values(|s: String| s@)
}

proof fn lemma_counts_bounded(os: Seq<FileOutcome>)
    ensures
        count_complete(os) <= os.len(),
        count_existing(os) <= os.len(),
        count_failed(os) <= os.len(),
    decreases os.len(),
{
    if os.len() > 0 {
        lemma_counts_bounded(os.drop_last());
    }
}

/// Recounts the download counters from the authoritative list of outcomes
/// (the streamed counts may have missed events); verification counters are
/// kept.
pub fn count_outcomes(outcomes: &[FileOutcome], tally: &mut RunTally)
    ensures
        final(tally).downloaded == count_complete(outcomes@),
        final(tally).skipped == count_existing(outcomes@),
        final(tally).failed == count_failed(outcomes@),
        final(tally).auth_required == any_auth(outcomes@),
        strings_view(final(tally).failures@) == failure_messages(outcomes@),
        final(tally).files == old(tally).files,
        final(tally).total_bytes == old(tally).total_bytes,
        final(tally).verified == old(tally).verified,
        final(tally).hash_mismatch == old(tally).hash_mismatch,
        final(tally).mismatches@ == old(tally).mismatches@,
{
    tally.downloaded = 0;
    tally.skipped = 0;
    tally.failed = 0;
    tally.auth_required = false;
    tally.failures = Vec::new();
    let mut i: usize = 0;
    while i < outcomes.len()
        invariant
            i <= outcomes@.len(),
            tally.downloaded == count_complete(outcomes@.take(i as int)),
            tally.skipped == count_existing(outcomes@.take(i as int)),
            tally.failed == count_failed(outcomes@.take(i as int)),
            tally.auth_required == any_auth(outcomes@.take(i as int)),
            strings_view(tally.failures@) == failure_messages(outcomes@.take(i as int)),
            tally.files == old(tally).files,
            tally.total_bytes == old(tally).total_bytes,
            tally.verified == old(tally).verified,
            tally.hash_mismatch == old(tally).hash_mismatch,
            tally.mismatches@ == old(tally).mismatches@,
        decreases outcomes.len() - i,
    {
        let ghost prev = outcomes@.take(i as int);
        let ghost next = outcomes@.take(i + 1);
        proof {
            assert(next.drop_last() =~= prev);
            assert(next.last() == outcomes@[i as int]);
            lemma_counts_bounded(prev);
            assert(any_auth(next) == (any_auth(prev) || outcomes@[i as int] is AuthRequired)) by {
                if any_auth(prev) {
                    let j = choose|j: int| 0 <= j < prev.len() && #[trigger] prev[j] is AuthRequired;
                    assert(next[j] == prev[j]);
                }
                if any_auth(next) && !(outcomes@[i as int] is AuthRequired) {
                    let j = choose|j: int| 0 <= j < next.len() && #[trigger] next[j] is AuthRequired;
                    assert(j < prev.len());
                    assert(prev[j] == next[j]);
                }
                if outcomes@[i as int] is AuthRequired {
                    assert(next[i as int] is AuthRequired);
                }
            }
        }
        match &outcomes[i] {
            FileOutcome::Complete { .. } => {
                tally.downloaded = tally.downloaded + 1;
            },
            FileOutcome::AlreadyExists { .. } => {
                tally.skipped = tally.skipped + 1;
            },
            FileOutcome::AuthRequired { .. } => {
                tally.auth_required = true;
            },
            FileOutcome::Failed { filename, reason } => {
                tally.failed = tally.failed + 1;
                let ghost before = tally.failures@;
                tally.failures.push(make_failure_message(filename.as_str(), reason.as_str()));
                proof {
                    assert(strings_view(tally.failures@) =~= strings_view(before).push(tally.failures@.last()@));
                }
            },
        }
        i += 1;
    }
    assert(outcomes@.take(outcomes@.len() as int) =~= outcomes@);
}

/// Counts one verification result and returns the event to report.
pub fn apply_verify_outcome(outcome: &VerifyOutcome, tally: &mut RunTally) -> (r: Notice)
    requires
        tally_has_room(*old(tally)),
    ensures
        final(tally).files == old(tally).files,
        final(tally).total_bytes == old(tally).total_bytes,
        final(tally).downloaded == old(tally).downloaded,
        final(tally).skipped == old(tally).skipped,
        final(tally).failed == old(tally).failed,
        final(tally).auth_required == old(tally).auth_required,
        final(tally).failures@ == old(tally).failures@,
        match *outcome {
            VerifyOutcome::Verified { filename } => {
                &&& final(tally).verified == old(tally).verified + 1
                &&& final(tally).hash_mismatch == old(tally).hash_mismatch
                &&& final(tally).mismatches@ == old(tally).mismatches@
                &&& r matches Notice::VerificationResult { filename: f, ok, expected_sha256, actual_sha256 }
                    && f@ == filename@ && ok && expected_sha256 is None && actual_sha256 is None
            },
            VerifyOutcome::Mismatch { filename, expected_sha256, actual_sha256 } => {
                &&& final(tally).verified == old(tally).verified
                &&& final(tally).hash_mismatch == old(tally).hash_mismatch + 1
                &&& final(tally).mismatches@ == old(tally).mismatches@.push(filename)
                &&& r matches Notice::VerificationResult { filename: f, ok, expected_sha256: e, actual_sha256: a }
                    && f@ == filename@ && !ok && e == Some(expected_sha256) && a == Some(actual_sha256)
            },
            VerifyOutcome::Error { filename, reason } => {
                &&& final(tally).verified == old(tally).verified
                &&& final(tally).hash_mismatch == old(tally).hash_mismatch
                &&& final(tally).mismatches@ == old(tally).mismatches@
                &&& r matches Notice::Error { code, message }
                    && code@ == "verification_error"@ && message@ == failure_message(filename@, reason@)
            },
            VerifyOutcome::Missing { filename } => {
                &&& final(tally).verified == old(tally).verified
                &&& final(tally).hash_mismatch == old(tally).hash_mismatch
                &&& final(tally).mismatches@ == old(tally).mismatches@
                &&& r matches Notice::Error { code, message }
                    && code@ == "verification_error"@ && message@ == failure_message(
                    filename@,
                    "file not found for verification"@,
                )
            },
        },
{
    match outcome {
        VerifyOutcome::Verified { filename } => {
            tally.verified = tally.verified + 1;
            Notice::VerificationResult { filename: filename.clone(), ok: true, expected_sha256: None, actual_sha256: None }
        },
        VerifyOutcome::Mismatch { filename, expected_sha256, actual_sha256 } => {
            tally.hash_mismatch = tally.hash_mismatch + 1;
            tally.mismatches.push(filename.clone());
            Notice::VerificationResult {
                filename: filename.clone(),
                ok: false,
                expected_sha256: Some(expected_sha256.clone()),
                actual_sha256: Some(actual_sha256.clone()),
            }
        },
        VerifyOutcome::Error { filename, reason } => {
            Notice::Error {
                code: String::from_str("verification_error"),
                message: make_failure_message(filename.as_str(), reason.as_str()),
            }
        },
        VerifyOutcome::Missing { filename } => {
            Notice::Error {
                code: String::from_str("verification_error"),
                message: make_failure_message(filename.as_str(), "file not found for verification"),
            }
        },
    }
}

// ---------------------------------------------------------------------------
// Reporter
// ---------------------------------------------------------------------------

/// Display form of a path-like string no longer than `max` characters: the
/// string itself when it fits, else `…` followed by its tail.
pub open spec fn truncated_path(s: Seq<char>, max: int) -> Seq<char> {
    if s.len() <= max {
        s
    } else if max >= 1 {
        seq!['…'] + s.subrange(s.len() + 1 - max, s.len() as int)
    } else {
        seq!['…']
    }
}

/// Truncates a path-like string for single-line display, keeping the
/// (differing) tail.
pub fn truncate_path(s: &str, max: usize) -> (r: String)
    ensures
        r@ == truncated_path(s@, max as int),
{
    let cs = to_chars(s);
    let n = cs.len();
    if n <= max {
        return String::from_str(s);
    }
    let mut r = String::new();
    push_char(&mut r, '…');
    if max >= 1 {
        let tail = copy_range(cs.as_slice(), n - (max - 1), n);
        push_chars(&mut r, tail.as_slice());
    }
    proof {
        if max >= 1 {
            assert(r@ =~= seq!['…'] + s@.subrange(s@.len() + 1 - max, s@.len() as int));
        } else {
            assert(r@ =~= seq!['…']);
        }
    }
    r
}

/// What one reporter call writes: whether an active single-line progress
/// render is cleared first, and the line (if any).
#[derive(Debug, Clone)]
pub struct Emission {
    pub clear_progress: bool,
    pub line: Option<String>,
}

/// Decides what the one-shot download mode prints: human text (progress on
/// stderr, summary on stdout) or nothing beyond the NDJSON events.
#[derive(Debug, Clone)]
pub struct Reporter {
    json: bool,
    quiet: bool,
    /// Single-line progress rewrites are only used when stderr is a tty.
    progress_to_tty: bool,
    progress_line_active: bool,
}

/// Free-text status lines that typed events already cover.
pub open spec fn covered_status(m: Seq<char>) -> bool {
    has_prefix(m, "Starting download:"@) || has_prefix(m, "Verifying integrity of"@)
        || has_prefix(m, "Download complete"@) || has_prefix(m, "File "@)
        || has_prefix(m, "✓ Hash verified"@) || has_prefix(m, "✗ Hash mismatch"@)
        || has_prefix(m, "Queued "@) || has_prefix(m, "404 error, trying raw"@)
}

/// Status lines shown even in quiet mode.
pub open spec fn important_status(m: Seq<char>) -> bool {
    has_prefix(m, "Error:"@) || has_prefix(m, "Warning:"@) || contains_seq(m, "Retrying"@)
}

pub open spec fn auth_prefix() -> Seq<char> {
    "AUTH_ERROR:"@
}

/// The stderr line for a free-text status message, if any.
pub open spec fn status_output(json: bool, quiet: bool, m: Seq<char>) -> Option<Seq<char>> {
    if json || covered_status(m) {
        None
    } else if has_prefix(m, auth_prefix()) {
        Some(auth_message(m.subrange(auth_prefix().len() as int, m.len() as int)))
    } else if quiet && !important_status(m) {
        None
    } else {
        Some(m)
    }
}

pub open spec fn opt_line(o: Option<String>) -> Option<Seq<char>> {
    match o {
        Some(s) => Some(s@),
        None => None,
    }
}

impl Reporter {
    pub closed spec fn is_json_mode(&self) -> bool {
        self.json
    }

    pub closed spec fn is_quiet(&self) -> bool {
        self.quiet
    }

    pub closed spec fn renders_progress(&self) -> bool {
        self.progress_to_tty
    }

    pub closed spec fn progress_active(&self) -> bool {
        self.progress_line_active
    }

    /// A reporter for the given modes; single-line progress is drawn only
    /// in human, non-quiet mode on a terminal.
    pub fn new(json: bool, quiet: bool, stderr_is_terminal: bool) -> (r: Reporter)
        ensures
            r.is_json_mode() == json,
            r.is_quiet() == quiet,
            r.renders_progress() == (!json && !quiet && stderr_is_terminal),
            !r.progress_active(),
    {
        Reporter { json, quiet, progress_to_tty: !json && !quiet && stderr_is_terminal, progress_line_active: false }
    }

    /// Whether events go out as NDJSON.
    pub fn is_json(&self) -> (r: bool)
        ensures
            r == self.is_json_mode(),
    {
        self.json
    }

    /// Whether single-line progress is drawn on stderr.
    pub fn progress_to_tty(&self) -> (r: bool)
        ensures
            r == self.renders_progress(),
    {
        self.progress_to_tty
    }

    /// Records that a progress line was just drawn.
    pub fn mark_progress_drawn(&mut self)
        ensures
            final(self).progress_active(),
            final(self).is_json_mode() == old(self).is_json_mode(),
            final(self).is_quiet() == old(self).is_quiet(),
            final(self).renders_progress() == old(self).renders_progress(),
    {
        self.progress_line_active = true;
    }

    fn line(&mut self, text: String) -> (r: Emission)
        ensures
            r.clear_progress == old(self).progress_active(),
            opt_line(r.line) == Some(text@),
            !final(self).progress_active(),
            final(self).is_json_mode() == old(self).is_json_mode(),
            final(self).is_quiet() == old(self).is_quiet(),
            final(self).renders_progress() == old(self).renders_progress(),
    {
        let clear = self.progress_line_active;
        self.progress_line_active = false;
        Emission { clear_progress: clear, line: Some(text) }
    }

    fn nothing(&self) -> (r: Emission)
        ensures
            !r.clear_progress,
            r.line is None,
    {
        Emission { clear_progress: false, line: None }
    }

    /// Human rendering for a free-text engine status line (JSON mode drops
    /// them: the typed events carry the same information). Lines that typed
    /// events cover are dropped, an `AUTH_ERROR:` line becomes a hint to
    /// pass a token, and quiet mode keeps errors, warnings and retries only.
    pub fn status_line(&mut self, message: &str) -> (r: Emission)
        ensures
            opt_line(r.line) == status_output(old(self).is_json_mode(), old(self).is_quiet(), message@),
            r.line is Some ==> r.clear_progress == old(self).progress_active() && !final(self).progress_active(),
            r.line is None ==> !r.clear_progress && final(self).progress_active() == old(self).progress_active(),
            final(self).is_json_mode() == old(self).is_json_mode(),
            final(self).is_quiet() == old(self).is_quiet(),
            final(self).renders_progress() == old(self).renders_progress(),
    {
        if self.json {
            return self.nothing();
        }
        let covered = str_starts_with(message, "Starting download:") || str_starts_with(message, "Verifying integrity of")
            || str_starts_with(message, "Download complete") || str_starts_with(message, "File ")
            || str_starts_with(message, "✓ Hash verified") || str_starts_with(message, "✗ Hash mismatch")
            || str_starts_with(message, "Queued ") || str_starts_with(message, "404 error, trying raw");
        if covered {
            return self.nothing();
        }
        let prefix = "AUTH_ERROR:";
        if str_starts_with(message, prefix) {
            let n = prefix.unicode_len();
            let model_id = str_drop(message, n);
            let text = make_auth_message(model_id.as_str());
            return self.line(text);
        }
        let important = str_starts_with(message, "Error:") || str_starts_with(message, "Warning:")
            || str_contains(message, "Retrying");
        if self.quiet && !important {
            return self.nothing();
        }
        self.line(String::from_str(message))
    }

    /// Clears any trailing progress line (call before exiting).
    pub fn finish(&mut self) -> (r: Emission)
        ensures
            r.clear_progress == old(self).progress_active(),
            r.line is None,
            !final(self).progress_active(),
            final(self).is_json_mode() == old(self).is_json_mode(),
            final(self).is_quiet() == old(self).is_quiet(),
            final(self).renders_progress() == old(self).renders_progress(),
    {
        let clear = self.progress_line_active;
        self.progress_line_active = false;
        Emission { clear_progress: clear, line: None }
    }

    /// Human-mode destination hint for stdout after the summary (none in
    /// quiet or JSON mode, which keeps stdout pure NDJSON).
    pub fn destination_line(&mut self, path: &str) -> (r: Emission)
        ensures
            !old(self).is_json_mode() && !old(self).is_quiet() ==> opt_line(r.line) == Some(
                "Destination: "@ + path@,
            ) && r.clear_progress == old(self).progress_active() && !final(self).progress_active(),
            old(self).is_json_mode() || old(self).is_quiet() ==> r.line is None && !r.clear_progress
                && final(self).progress_active() == old(self).progress_active(),
            final(self).is_json_mode() == old(self).is_json_mode(),
            final(self).is_quiet() == old(self).is_quiet(),
            final(self).renders_progress() == old(self).renders_progress(),
    {
        if !self.json && !self.quiet {
            let mut t = String::from_str("Destination: ");
            t.append(path);
            self.line(t)
        } else {
            self.nothing()
        }
    }
}

// ---------------------------------------------------------------------------
// Human rendering of events
// ---------------------------------------------------------------------------

pub open spec fn resolved_text(count: nat, total: nat) -> Seq<char> {
    decimal(count) + " file(s) to download, "@ + size_text(total) + " total"@
}

pub open spec fn file_complete_text(filename: Seq<char>, status: Seq<char>, bytes: nat) -> Seq<char> {
    seq![' '] + (if status == "already_exists"@ { seq!['='] } else { seq!['+'] }) + seq![' '] + truncated_path(filename, 60)
        + " ("@ + size_text(bytes) + seq![')']
}

pub open spec fn verification_text(filename: Seq<char>, ok: bool) -> Seq<char> {
    seq![' '] + (if ok { seq!['✓'] } else { seq!['✗'] }) + " verified"@ + (if ok { Seq::<char>::empty() } else { " hash mismatch"@ })
        + ": "@ + truncated_path(filename, 60)
}

pub open spec fn done_text(s: Summary) -> Seq<char> {
    "Done: "@ + decimal(s.files as nat) + " file(s), "@ + size_text(s.total_bytes as nat) + " → "@ + decimal(
        s.downloaded as nat,
    ) + " downloaded, "@ + decimal(s.skipped as nat) + " skipped (exists), "@ + decimal(s.verified as nat)
        + " verified, "@ + decimal(s.failed as nat) + " failed"@
}

pub open spec fn mismatch_text(n: nat) -> Seq<char> {
    "Hash mismatches: "@ + decimal(n) + " (registry marked HashMismatch)"@
}

pub open spec fn error_text(code: Seq<char>, message: Seq<char>) -> Seq<char> {
    "error ["@ + code + "]: "@ + message
}

fn dec(n: usize) -> (r: String)
    ensures
        r@ == decimal(n as nat),
{
    decimal_string(n as u64)
}

impl Reporter {
    /// Human line for the resolved file list (stderr; none in quiet or
    /// JSON mode).
    pub fn resolved(&mut self, count: usize, total_bytes: u64) -> (r: Emission)
        ensures
            !old(self).is_json_mode() && !old(self).is_quiet() ==> opt_line(r.line) == Some(
                resolved_text(count as nat, total_bytes as nat),
            ) && r.clear_progress == old(self).progress_active() && !final(self).progress_active(),
            old(self).is_json_mode() || old(self).is_quiet() ==> r.line is None && !r.clear_progress
                && final(self).progress_active() == old(self).progress_active(),
            final(self).is_json_mode() == old(self).is_json_mode(),
            final(self).is_quiet() == old(self).is_quiet(),
            final(self).renders_progress() == old(self).renders_progress(),
    {
        if self.json || self.quiet {
            return self.nothing();
        }
        let mut t = dec(count);
        t.append(" file(s) to download, ");
        let sz = format_size(total_bytes);
        t.append(sz.as_str());
        t.append(" total");
        self.line(t)
    }

    /// Human line for a finished file: `=` when it already existed, `+`
    /// when it was downloaded (stderr; none in quiet or JSON mode).
    pub fn file_complete(&mut self, filename: &str, status: &str, bytes: u64) -> (r: Emission)
        ensures
            !old(self).is_json_mode() && !old(self).is_quiet() ==> opt_line(r.line) == Some(
                file_complete_text(filename@, status@, bytes as nat),
            ) && r.clear_progress == old(self).progress_active() && !final(self).progress_active(),
            old(self).is_json_mode() || old(self).is_quiet() ==> r.line is None && !r.clear_progress
                && final(self).progress_active() == old(self).progress_active(),
            final(self).is_json_mode() == old(self).is_json_mode(),
            final(self).is_quiet() == old(self).is_quiet(),
            final(self).renders_progress() == old(self).renders_progress(),
    {
        if self.json || self.quiet {
            return self.nothing();
        }
        let mut t = String::from_str(" ");
        if crate::text::str_eq(status, "already_exists") {
            t.append("=");
        } else {
            t.append("+");
        }
        t.append(" ");
        let name = truncate_path(filename, 60);
        t.append(name.as_str());
        t.append(" (");
        let sz = format_size(bytes);
        t.append(sz.as_str());
        t.append(")");
        proof {
            reveal_strlit(" ");
            reveal_strlit("=");
            reveal_strlit("+");
            reveal_strlit(")");
        }
        self.line(t)
    }

    /// Human line for a hash check (stderr; none in quiet or JSON mode).
    pub fn verification_result(&mut self, filename: &str, ok: bool) -> (r: Emission)
        ensures
            !old(self).is_json_mode() && !old(self).is_quiet() ==> opt_line(r.line) == Some(
                verification_text(filename@, ok),
            ) && r.clear_progress == old(self).progress_active() && !final(self).progress_active(),
            old(self).is_json_mode() || old(self).is_quiet() ==> r.line is None && !r.clear_progress
                && final(self).progress_active() == old(self).progress_active(),
            final(self).is_json_mode() == old(self).is_json_mode(),
            final(self).is_quiet() == old(self).is_quiet(),
            final(self).renders_progress() == old(self).renders_progress(),
    {
        if self.json || self.quiet {
            return self.nothing();
        }
        let mut t = String::from_str(" ");
        if ok {
            t.append("✓");
        } else {
            t.append("✗");
        }
        t.append(" verified");
        if !ok {
            t.append(" hash mismatch");
        }
        t.append(": ");
        let name = truncate_path(filename, 60);
        t.append(name.as_str());
        proof {
            reveal_strlit(" ");
            reveal_strlit("✓");
            reveal_strlit("✗");
        }
        self.line(t)
    }

    /// The summary lines for stdout: the totals, and the hash mismatch
    /// count when there is one (none in JSON mode).
    pub fn done(&mut self, s: &Summary) -> (r: (Emission, Emission))
        ensures
            !old(self).is_json_mode() ==> opt_line(r.0.line) == Some(done_text(*s)) && r.0.clear_progress
                == old(self).progress_active() && !r.1.clear_progress && !final(self).progress_active(),
            !old(self).is_json_mode() && s.hash_mismatch > 0 ==> opt_line(r.1.line) == Some(
                mismatch_text(s.hash_mismatch as nat),
            ),
            old(self).is_json_mode() || s.hash_mismatch == 0 ==> r.1.line is None,
            old(self).is_json_mode() ==> r.0.line is None && !r.0.clear_progress && !r.1.clear_progress
                && final(self).progress_active() == old(self).progress_active(),
            final(self).is_json_mode() == old(self).is_json_mode(),
            final(self).is_quiet() == old(self).is_quiet(),
            final(self).renders_progress() == old(self).renders_progress(),
    {
        if self.json {
            return (self.nothing(), self.nothing());
        }
        let mut t = String::from_str("Done: ");
        t.append(dec(s.files).as_str());
        t.append(" file(s), ");
        t.append(format_size(s.total_bytes).as_str());
        t.append(" → ");
        t.append(dec(s.downloaded).as_str());
        t.append(" downloaded, ");
        t.append(dec(s.skipped).as_str());
        t.append(" skipped (exists), ");
        t.append(dec(s.verified).as_str());
        t.append(" verified, ");
        t.append(dec(s.failed).as_str());
        t.append(" failed");
        let first = self.line(t);
        if s.hash_mismatch > 0 {
            let mut m = String::from_str("Hash mismatches: ");
            m.append(dec(s.hash_mismatch).as_str());
            m.append(" (registry marked HashMismatch)");
            let second = self.line(m);
            (first, second)
        } else {
            (first, self.nothing())
        }
    }

    /// Human line for an error event (stderr; none in JSON mode).
    pub fn error(&mut self, code: &str, message: &str) -> (r: Emission)
        ensures
            !old(self).is_json_mode() ==> opt_line(r.line) == Some(error_text(code@, message@))
                && r.clear_progress == old(self).progress_active() && !final(self).progress_active(),
            old(self).is_json_mode() ==> r.line is None && !r.clear_progress
                && final(self).progress_active() == old(self).progress_active(),
            final(self).is_json_mode() == old(self).is_json_mode(),
            final(self).is_quiet() == old(self).is_quiet(),
            final(self).renders_progress() == old(self).renders_progress(),
    {
        if self.json {
            return self.nothing();
        }
        let mut t = String::from_str("error [");
        t.append(code);
        t.append("]: ");
        t.append(message);
        self.line(t)
    }
}

} // verus!
