//! The decisions of the one-shot `download` command, from its arguments to
//! the registration of the files: a state machine that the program drives,
//! performing each action (fetching, reporting, checking a path on disk,
//! registering) and handing back what came of it.  Every failure ends the
//! run with its error code and exit code; nothing is registered before
//! every target path has passed its check.

use crate::api::{classification, classify_quantizations, gguf_total_fits, gguf_entries, sum_sizes};
use crate::cli::{
    available_of, is_model_id, msg_selector_conflict, parse_selector, resolution, resolve_files, selector_count,
    specs_view, spec_view, valid_model_id, DownloadArgs, FileSpec, FileSpecView, Resolution, ResolveError, Selector,
    EXIT_FAILURE, EXIT_USAGE,
};
use crate::engine::PendingFile;
use crate::models::{ModelMetadata, QuantizationGroup};
use crate::quant::opt_str_view;
use vstd::prelude::*;

verus! {

/// How `format!("{:?}", s)` shows a string: quoted, with quotes,
/// backslashes and the characters that `char::escape_debug` escapes
/// written as escapes.
pub uninterp spec fn debug_quoted(s: Seq<char>) -> Seq<char>;

/// `format!("{:?}", s)` of a string (std's `Debug` for `str`); its escape
/// rules rest on Unicode tables and are named, not stated.
#[verifier::external_body]
fn debug_quote(s: &str) -> (r: String)
    ensures
        r@ == debug_quoted(s@),
{
    format!("{:?}", s)
}

/// Why the model's metadata could not be fetched: the Hub has no such
/// model, or another failure; each with the error's text.
#[derive(Debug, Clone, PartialEq, Eq)]
pub enum FetchFailure {
    NotFound(String),
    Network(String),
}

/// Where a run stands.
#[derive(Debug)]
pub enum RunState {
    /// Nothing done yet.
    Start,
    /// Waiting for the model's metadata.
    AwaitMetadata { model_id: String, selector: Selector },
    /// The files are resolved and being reported.
    Announcing { model_id: String, files: Vec<FileSpec> },
    /// The target paths are being checked, one per file in order; `pending`
    /// holds the files whose path passed.
    CheckingPaths { model_id: String, files: Vec<FileSpec>, pending: Vec<PendingFile> },
    /// Every target path passed and the files were handed over for
    /// registration; the downloads follow.
    Ready { model_id: String, files: Vec<FileSpec>, pending: Vec<PendingFile> },
    /// The run failed.
    Failed,
}

/// What came of the last action.
#[derive(Debug)]
pub enum RunEvent {
    /// The command was started with these arguments.
    Begin(DownloadArgs),
    /// The metadata fetch finished.
    Metadata(Result<ModelMetadata, FetchFailure>),
    /// The resolved files were reported.
    Announced,
    /// The target path of the next file was checked: its local path, or
    /// why it was refused.
    PathChecked(Result<String, String>),
}

/// What the program does next.
#[derive(Debug)]
pub enum RunAction {
    /// Fetch the metadata (with the recursive file listing) of the model.
    Fetch { model_id: String },
    /// Report the resolved files and their total size.
    Announce { files: Vec<FileSpec>, total_bytes: u64 },
    /// Check the target path of this file under the download directory.
    CheckPath { filename: String },
    /// Register these files (name, size, hash, local path) as pending and
    /// start the downloads.
    Register { pending: Vec<PendingFile> },
    /// Report the error (its code, message and, for a failed resolution,
    /// the downloadable files) and exit with `exit_code`.
    Fail { code: String, message: String, available: Option<Vec<FileSpec>>, exit_code: i32 },
    /// The event does not belong to the state; nothing happens.
    Ignore,
}

/// A pending file as plain values.
pub open spec fn pending_view(p: PendingFile) -> (Seq<char>, u64, Option<Seq<char>>, Seq<char>) {
    (p.0@, p.1, opt_str_view(p.2), p.3@)
}

pub open spec fn pendings_view(v: Seq<PendingFile>) -> Seq<(Seq<char>, u64, Option<Seq<char>>, Seq<char>)> {
    v.map_values(|p: PendingFile| pending_view(p))
}

/// The pending entry of file `f` whose target path is `path`.
pub open spec fn entry_for(f: FileSpec, path: Seq<char>) -> (Seq<char>, u64, Option<Seq<char>>, Seq<char>) {
    (f.filename@, f.size_bytes, opt_str_view(f.sha256), path)
}

/// The sum of the sizes, saturating at `u64::MAX`.
pub open spec fn sat_total(v: Seq<FileSpec>) -> u64
    decreases v.len(),
{
    if v.len() == 0 {
        0
    } else {
        let t = sat_total(v.drop_last()) + v.last().size_bytes;
        if t > u64::MAX { u64::MAX } else { t as u64 }
    }
}

/// The selector that the arguments ask for (one of them at most given).
pub open spec fn selector_of_args(args: DownloadArgs, s: Selector) -> bool {
    if args.quant is Some {
        s matches Selector::Quant(q) && q@ == args.quant->0@
    } else if args.file@.len() > 0 {
        s matches Selector::Files(fs) && fs@.len() == args.file@.len() && forall|i: int|
            0 <= i < fs@.len() ==> (#[trigger] fs@[i])@ == args.file@[i]@
    } else if args.all {
        s == Selector::All
    } else {
        s == Selector::Default
    }
}

/// `a` reports the error `code` with `message` and `available` and exits
/// with `exit`; the run is over.
pub open spec fn fails_with(
    t: RunState,
    a: RunAction,
    code: Seq<char>,
    message: Seq<char>,
    available: Option<Seq<FileSpecView>>,
    exit: i32,
) -> bool {
    &&& t is Failed
    &&& a matches RunAction::Fail { code: c, message: m, available: av, exit_code: x }
    &&& c@ == code
    &&& m@ == message
    &&& x == exit
    &&& match av {
        Some(v) => available == Some(specs_view(v@)),
        None => available is None,
    }
}

pub open spec fn fetch_message(model_id: Seq<char>, reason: Seq<char>) -> Seq<char> {
    "failed to fetch model info for "@ + model_id + ": "@ + reason
}

pub open spec fn invalid_id_message(model_id: Seq<char>) -> Seq<char> {
    "invalid model ID "@ + debug_quoted(model_id) + " — expected \"author/model-name\""@
}

pub open spec fn overflow_message() -> Seq<char> {
    "failed to list model files: sizes overflow"@
}

/// The message of a failed resolution.
pub open spec fn resolve_message(res: Resolution, available: Seq<FileSpecView>) -> Seq<char> {
    match res {
        Resolution::Ambiguous => "model has "@ + crate::text::decimal(available.len())
            + " downloadable file(s); specify --quant <TYPE>, --file <PATH>, or --all"@,
        Resolution::NoMatch(sel) => "no downloadable file matches "@ + sel,
        Resolution::Files(_) => Seq::<char>::empty(),
    }
}

/// The outcome of resolving the selection with the groups `groups` (none
/// unless the selector names a quantization): the files to announce, or
/// the failure with its code, the listing and exit code 64.
pub open spec fn resolved(
    model_id: Seq<char>,
    meta: ModelMetadata,
    groups: Seq<QuantizationGroup>,
    sel: Selector,
    t: RunState,
    a: RunAction,
) -> bool {
    let av = available_of(meta.siblings@);
    match resolution(meta.siblings@, groups, sel) {
        Resolution::Files(v) => {
            &&& t matches RunState::Announcing { model_id: id, files } && id@ == model_id && specs_view(files@) == v
            &&& a matches RunAction::Announce { files, total_bytes } && specs_view(files@) == v && total_bytes
                == sat_total(files@)
        },
        Resolution::Ambiguous => fails_with(
            t,
            a,
            "ambiguous"@,
            resolve_message(Resolution::Ambiguous, av),
            Some(av),
            EXIT_USAGE,
        ),
        Resolution::NoMatch(s) => fails_with(
            t,
            a,
            "no_files_match"@,
            resolve_message(Resolution::NoMatch(s), av),
            Some(av),
            EXIT_USAGE,
        ),
    }
}

/// One step of the run from state `s` on event `e` to state `t` with
/// action `a`:
/// - begin: an invalid model ID, or more than one selector, fails as
///   `usage` with exit code 64; else the metadata is fetched;
/// - metadata: a missing model fails as `not_found` with 64, any other
///   fetch failure as `network` with 1; for a quantization selector whose
///   grouped sizes overflow, `network` with 1; else the selection is
///   resolved (with the quantization groups when a quantization is asked
///   for): files are announced, an ambiguous or empty selection fails as
///   `ambiguous` or `no_files_match` with the listing and 64;
/// - announced: the first target path is checked (nothing to register
///   when there is no file);
/// - path checked: a refused path fails as `invalid_path` with 1 and
///   nothing is registered; a passed one joins the pending files, and the
///   registration comes only when every file's path has passed;
/// - any other pairing changes nothing (the state stays as it was).
pub open spec fn run_transition(s: RunState, e: RunEvent, t: RunState, a: RunAction) -> bool {
    match (s, e) {
        (RunState::Start, RunEvent::Begin(args)) => if !is_model_id(args.model_id@) {
            fails_with(t, a, "usage"@, invalid_id_message(args.model_id@), None, EXIT_USAGE)
        } else if selector_count(args) > 1 {
            fails_with(t, a, "usage"@, msg_selector_conflict(), None, EXIT_USAGE)
        } else {
            &&& t matches RunState::AwaitMetadata { model_id, selector } && model_id@ == args.model_id@
                && selector_of_args(args, selector)
            &&& a matches RunAction::Fetch { model_id } && model_id@ == args.model_id@
        },
        (RunState::AwaitMetadata { model_id, selector }, RunEvent::Metadata(res)) => match res {
            Err(FetchFailure::NotFound(reason)) => fails_with(
                t,
                a,
                "not_found"@,
                fetch_message(model_id@, reason@),
                None,
                EXIT_USAGE,
            ),
            Err(FetchFailure::Network(reason)) => fails_with(
                t,
                a,
                "network"@,
                fetch_message(model_id@, reason@),
                None,
                EXIT_FAILURE,
            ),
            Ok(meta) => if selector is Quant {
                if sum_sizes(gguf_entries(meta.siblings@)) > u64::MAX {
                    fails_with(t, a, "network"@, overflow_message(), None, EXIT_FAILURE)
                } else {
                    exists|groups: Seq<QuantizationGroup>|
                        classification(meta.siblings@, groups) && #[trigger] resolved(
                            model_id@,
                            meta,
                            groups,
                            selector,
                            t,
                            a,
                        )
                }
            } else {
                resolved(model_id@, meta, Seq::empty(), selector, t, a)
            },
        },
        (RunState::Announcing { model_id, files }, RunEvent::Announced) => if files@.len() == 0 {
            &&& t matches RunState::Ready { model_id: id, files: fs, pending } && id@ == model_id@ && fs@ == files@
                && pending@.len() == 0
            &&& a matches RunAction::Register { pending } && pending@.len() == 0
        } else {
            &&& t matches RunState::CheckingPaths { model_id: id, files: fs, pending } && id@ == model_id@ && fs@
                == files@ && pending@.len() == 0
            &&& a matches RunAction::CheckPath { filename } && filename@ == files@[0].filename@
        },
        (RunState::CheckingPaths { model_id, files, pending }, RunEvent::PathChecked(res)) => {
            if pending@.len() >= files@.len() {
                a is Ignore && t == RunState::CheckingPaths { model_id, files, pending }
            } else {
                match res {
                    Err(message) => fails_with(t, a, "invalid_path"@, message@, None, EXIT_FAILURE),
                    Ok(path) => {
                        let next = pendings_view(pending@).push(entry_for(files@[pending@.len() as int], path@));
                        if next.len() < files@.len() {
                            &&& t matches RunState::CheckingPaths { model_id: id, files: fs, pending: p } && id@
                                == model_id@ && fs@ == files@ && pendings_view(p@) == next
                            &&& a matches RunAction::CheckPath { filename } && filename@ == files@[next.len()
                                as int].filename@
                        } else {
                            &&& t matches RunState::Ready { model_id: id, files: fs, pending: p } && id@
                                == model_id@ && fs@ == files@ && pendings_view(p@) == next
                            &&& a matches RunAction::Register { pending: p } && pendings_view(p@) == next
                        }
                    },
                }
            }
        },
        (s, _) => a is Ignore && t == s,
    }
}

proof fn lemma_sat_total_view(a: Seq<FileSpec>, b: Seq<FileSpec>)
    requires
        specs_view(a) == specs_view(b),
    ensures
        sat_total(a) == sat_total(b),
    decreases a.len(),
{
    assert(a.len() == specs_view(a).len() && b.len() == specs_view(b).len());
    if a.len() > 0 {
        assert forall|k: int| 0 <= k < a.len() - 1 implies #[trigger] specs_view(a.drop_last())[k] == specs_view(
            b.drop_last(),
        )[k] by {
            assert(specs_view(a)[k] == specs_view(b)[k]);
            assert(a.drop_last()[k] == a[k]);
            assert(b.drop_last()[k] == b[k]);
            assert(specs_view(a.drop_last())[k] == spec_view(a.drop_last()[k]));
            assert(specs_view(b.drop_last())[k] == spec_view(b.drop_last()[k]));
            assert(specs_view(a)[k] == spec_view(a[k]));
            assert(specs_view(b)[k] == spec_view(b[k]));
        }
        assert(specs_view(a.drop_last()) =~= specs_view(b.drop_last()));
        lemma_sat_total_view(a.drop_last(), b.drop_last());
        assert(spec_view(a.last()) == specs_view(a)[a.len() - 1]);
        assert(spec_view(b.last()) == specs_view(b)[b.len() - 1]);
    }
}

fn fail(code: &str, message: String, available: Option<Vec<FileSpec>>, exit_code: i32) -> (r: (RunState, RunAction))
    ensures
        r.0 is Failed,
        r.1 matches RunAction::Fail { code: c, message: m, available: av, exit_code: x } && c@ == code@ && m@
            == message@ && x == exit_code && av == available,
{
    (RunState::Failed, RunAction::Fail { code: String::from_str(code), message, available, exit_code })
}

fn copy_spec(f: &FileSpec) -> (r: FileSpec)
    ensures
        spec_view(r) == spec_view(*f),
{
    FileSpec {
        filename: f.filename.clone(),
        size_bytes: f.size_bytes,
        sha256: match &f.sha256 {
            Some(h) => Some(h.clone()),
            None => None,
        },
    }
}

fn copy_specs(v: &Vec<FileSpec>) -> (r: Vec<FileSpec>)
    ensures
        specs_view(r@) == specs_view(v@),
{
    let mut out: Vec<FileSpec> = Vec::new();
    let mut i: usize = 0;
    while i < v.len()
        invariant
            i <= v@.len(),
            out@.len() == i,
            specs_view(out@) == specs_view(v@.take(i as int)),
        decreases v.len() - i,
    {
        let ghost before = out@;
        out.push(copy_spec(&v[i]));
        proof {
            assert(v@.take(i + 1) =~= v@.take(i as int).push(v@[i as int]));
            assert(out@ =~= before.push(out@[i as int]));
        }
        proof {
            let t = v@.take(i + 1);
            assert forall|k: int| 0 <= k < i + 1 implies #[trigger] specs_view(out@)[k] == specs_view(t)[k] by {
                if k < i {
                    assert(specs_view(before)[k] == specs_view(v@.take(i as int))[k]);
                }
            }
        }
        i += 1;
        assert(specs_view(out@) =~= specs_view(v@.take(i as int)));
    }
    assert(v@.take(v@.len() as int) =~= v@);
    out
}

fn total_of(v: &Vec<FileSpec>) -> (r: u64)
    ensures
        r == sat_total(v@),
{
    let mut t: u64 = 0;
    let mut i: usize = 0;
    while i < v.len()
        invariant
            i <= v@.len(),
            t == sat_total(v@.take(i as int)),
        decreases v.len() - i,
    {
        proof {
            assert(v@.take(i + 1).drop_last() =~= v@.take(i as int));
        }
        t = t.saturating_add(v[i].size_bytes);
        i += 1;
    }
    assert(v@.take(v@.len() as int) =~= v@);
    t
}

fn resolve_step(model_id: String, meta: &ModelMetadata, groups: &Vec<QuantizationGroup>, sel: &Selector) -> (r: (
    RunState,
    RunAction,
))
    ensures
        resolved(model_id@, *meta, groups@, *sel, r.0, r.1),
{
    match resolve_files(meta, groups.as_slice(), sel) {
        Ok(files) => {
            let total_bytes = total_of(&files);
            let shown = copy_specs(&files);
            proof {
                lemma_sat_total_view(shown@, files@);
            }
            (RunState::Announcing { model_id, files }, RunAction::Announce { files: shown, total_bytes })
        },
        Err(err) => {
            let code = err.code();
            let message = err.message();
            let available = copy_specs(err.available());
            proof {
                let av = available_of(meta.siblings@);
                assert(specs_view(available@) == av);
                assert(available@.len() == av.len()) by {
                    assert(specs_view(available@).len() == available@.len());
                }
                match err {
                    ResolveError::Ambiguous { available: l } => {
                        assert(l@.len() == specs_view(l@).len());
                    },
                    ResolveError::NoFilesMatch { available: l, .. } => {
                        assert(l@.len() == specs_view(l@).len());
                    },
                }
            }
            fail(code, message, Some(available), EXIT_USAGE)
        },
    }
}

/// One step of the `download` command's run (see [`run_transition`]).
pub fn download_run_step(state: RunState, event: RunEvent) -> (r: (RunState, RunAction))
    ensures
        run_transition(state, event, r.0, r.1),
{
    match (state, event) {
        (RunState::Start, RunEvent::Begin(args)) => {
            if !valid_model_id(args.model_id.as_str()) {
                let mut m = String::from_str("invalid model ID ");
                let q = debug_quote(args.model_id.as_str());
                m.append(q.as_str());
                m.append(" — expected \"author/model-name\"");
                return fail("usage", m, None, EXIT_USAGE);
            }
            match parse_selector(&args) {
                Err(message) => fail("usage", message, None, EXIT_USAGE),
                Ok(selector) => {
                    let model_id = args.model_id.clone();
                    (RunState::AwaitMetadata { model_id, selector }, RunAction::Fetch { model_id: args.model_id })
                },
            }
        },
        (RunState::AwaitMetadata { model_id, selector }, RunEvent::Metadata(res)) => match res {
            Err(FetchFailure::NotFound(reason)) => {
                let mut m = String::from_str("failed to fetch model info for ");
                m.append(model_id.as_str());
                m.append(": ");
                m.append(reason.as_str());
                fail("not_found", m, None, EXIT_USAGE)
            },
            Err(FetchFailure::Network(reason)) => {
                let mut m = String::from_str("failed to fetch model info for ");
                m.append(model_id.as_str());
                m.append(": ");
                m.append(reason.as_str());
                fail("network", m, None, EXIT_FAILURE)
            },
            Ok(meta) => {
                let is_quant = match &selector {
                    Selector::Quant(_) => true,
                    _ => false,
                };
                if is_quant {
                    if !gguf_total_fits(meta.siblings.as_slice()) {
                        return fail(
                            "network",
                            String::from_str("failed to list model files: sizes overflow"),
                            None,
                            EXIT_FAILURE,
                        );
                    }
                    let groups = classify_quantizations(meta.siblings.as_slice());
                    let r = resolve_step(model_id, &meta, &groups, &selector);
                    assert(classification(meta.siblings@, groups@) && resolved(
                        model_id@,
                        meta,
                        groups@,
                        selector,
                        r.0,
                        r.1,
                    ));
                    r
                } else {
                    let groups: Vec<QuantizationGroup> = Vec::new();
                    let r = resolve_step(model_id, &meta, &groups, &selector);
                    assert(groups@ =~= Seq::<QuantizationGroup>::empty());
                    r
                }
            },
        },
        (RunState::Announcing { model_id, files }, RunEvent::Announced) => {
            if files.len() == 0 {
                (RunState::Ready { model_id, files, pending: Vec::new() }, RunAction::Register { pending: Vec::new() })
            } else {
                let filename = files[0].filename.clone();
                (RunState::CheckingPaths { model_id, files, pending: Vec::new() }, RunAction::CheckPath { filename })
            }
        },
        (RunState::CheckingPaths { model_id, files, pending }, RunEvent::PathChecked(res)) => {
            if pending.len() >= files.len() {
                return (RunState::CheckingPaths { model_id, files, pending }, RunAction::Ignore);
            }
            match res {
                Err(message) => fail("invalid_path", message, None, EXIT_FAILURE),
                Ok(path) => {
                    let k = pending.len();
                    let f = copy_spec(&files[k]);
                    let mut pending = pending;
                    let ghost before = pendings_view(pending@);
                    pending.push((f.filename, f.size_bytes, f.sha256, path));
                    assert(pendings_view(pending@) =~= before.push(entry_for(files@[k as int], path@)));
                    if pending.len() < files.len() {
                        let filename = files[pending.len()].filename.clone();
                        (RunState::CheckingPaths { model_id, files, pending }, RunAction::CheckPath { filename })
                    } else {
                        let handed = copy_pendings(&pending);
                        (RunState::Ready { model_id, files, pending }, RunAction::Register { pending: handed })
                    }
                },
            }
        },
        (state, _) => (state, RunAction::Ignore),
    }
}

fn copy_pendings(v: &Vec<PendingFile>) -> (r: Vec<PendingFile>)
    ensures
        pendings_view(r@) == pendings_view(v@),
{
    let mut out: Vec<PendingFile> = Vec::new();
    let mut i: usize = 0;
    while i < v.len()
        invariant
            i <= v@.len(),
            out@.len() == i,
            pendings_view(out@) == pendings_view(v@.take(i as int)),
        decreases v.len() - i,
    {
        let p = &v[i];
        let sha = match &p.2 {
            Some(h) => Some(h.clone()),
            None => None,
        };
        let ghost before = out@;
        out.push((p.0.clone(), p.1, sha, p.3.clone()));
        proof {
            assert(v@.take(i + 1) =~= v@.take(i as int).push(v@[i as int]));
            assert(out@ =~= before.push(out@[i as int]));
        }
        proof {
            let t = v@.take(i + 1);
            assert forall|k: int| 0 <= k < i + 1 implies #[trigger] pendings_view(out@)[k] == pendings_view(t)[k] by {
                if k < i {
                    assert(pendings_view(before)[k] == pendings_view(v@.take(i as int))[k]);
                }
            }
        }
        i += 1;
        assert(pendings_view(out@) =~= pendings_view(v@.take(i as int)));
    }
    assert(v@.take(v@.len() as int) =~= v@);
    out
}

} // verus!
