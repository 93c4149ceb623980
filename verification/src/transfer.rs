//! The decisions around one file transfer: where the file goes, and what
//! follows an attempt (done, retry, give up).  The transfer itself belongs
//! to the caller.

use crate::api::{resolve_url, url_of};
use crate::download::{sanitize_filename, sanitized_parts};
use crate::text::{decimal, decimal_string, joined_with, lemma_split_nonempty, split_on};
use vstd::prelude::*;

verus! {

/// Where a download goes.
#[derive(Debug, Clone)]
pub struct DownloadPlan {
    /// The `resolve` URL of the sanitized file name.
    pub url: String,
    /// The sanitized components joined with `/`.
    pub sanitized_filename: String,
    /// The last component: the name of the file on disk.
    pub local_name: String,
    /// The name of the file while it is being written.
    pub incomplete_name: String,
}

/// The public Hub that transfers are made from.
pub open spec fn hub() -> Seq<char> {
    "https://huggingface.co"@
}

/// The plan for `filename` of `model_id`, or the status line for a file
/// name with a refused component.
pub open spec fn plan_of(model_id: Seq<char>, filename: Seq<char>) -> Result<(Seq<char>, Seq<char>, Seq<char>, Seq<char>), Seq<char>> {
    match sanitized_parts(split_on(filename, '/')) {
        Err(e) => Err("Error: "@ + e),
        Ok(parts) => {
            let name = joined_with(parts, "/"@);
            let local = parts.last();
            Ok((url_of(hub(), model_id, name), name, local, local + ".incomplete"@))
        },
    }
}

pub open spec fn plan_view(p: DownloadPlan) -> (Seq<char>, Seq<char>, Seq<char>, Seq<char>) {
    (p.url@, p.sanitized_filename@, p.local_name@, p.incomplete_name@)
}

proof fn lemma_sanitized_parts_len(ps: Seq<Seq<char>>)
    ensures
        sanitized_parts(ps) matches Ok(q) ==> q.len() == ps.len(),
    decreases ps.len(),
{
    if ps.len() > 0 {
        lemma_sanitized_parts_len(ps.drop_last());
    }
}

/// Plans the download of `filename` of `model_id`: every component
/// sanitized, the URL on the public Hub, and the file stored under its
/// last component (the caller's directory already names the model).
pub fn download_plan(model_id: &str, filename: &str) -> (r: Result<DownloadPlan, String>)
    ensures
        match r {
            Ok(p) => plan_of(model_id@, filename@) == Ok::<(Seq<char>, Seq<char>, Seq<char>, Seq<char>), Seq<char>>(
                plan_view(p),
            ),
            Err(e) => plan_of(model_id@, filename@) == Err::<(Seq<char>, Seq<char>, Seq<char>, Seq<char>), Seq<char>>(e@),
        },
{
    let parts = match sanitize_filename(filename) {
        Ok(p) => p,
        Err(e) => {
            let mut m = String::from_str("Error: ");
            m.append(e.as_str());
            return Err(m);
        },
    };
    let ghost pv = parts@.map_values(|s: String| s@);
    proof {
        lemma_split_nonempty(filename@, '/');
        lemma_sanitized_parts_len(split_on(filename@, '/'));
    }
    let mut name = String::new();
    let mut i: usize = 0;
    while i < parts.len()
        invariant
            i <= parts@.len(),
            pv == parts@.map_values(|s: String| s@),
            i == 0 ==> name@.len() == 0,
            i > 0 ==> name@ == joined_with(pv.take(i as int), "/"@),
        decreases parts.len() - i,
    {
        proof {
            assert(pv.take(i + 1).drop_last() =~= pv.take(i as int));
            assert(pv.take(i + 1).last() == pv[i as int]);
            if i == 0 {
                assert(pv.take(1) =~= seq![pv[0]]);
            }
        }
        if i > 0 {
            name.append("/");
        }
        name.append(parts[i].as_str());
        proof {
            if i == 0 {
                assert(name@ =~= pv[0]);
            }
        }
        i += 1;
    }
    proof {
        assert(pv.take(pv.len() as int) =~= pv);
    }
    let n = parts.len();
    let local = parts[n - 1].clone();
    let mut incomplete = local.clone();
    incomplete.append(".incomplete");
    let url = resolve_url("https://huggingface.co", model_id, name.as_str());
    Ok(DownloadPlan { url, sanitized_filename: name, local_name: local, incomplete_name: incomplete })
}

/// How one attempt at a transfer ended.
#[derive(Debug, Clone)]
pub enum AttemptOutcome {
    /// The transfer ran to its end: bytes written, bytes announced, and
    /// whether an expected hash is known.
    Finished { final_size: u64, expected_size: u64, has_hash: bool },
    /// The transfer broke off; `transient` for a timeout or a refused
    /// connection.
    Failed { transient: bool, reason: String },
}

/// What follows an attempt.
#[derive(Debug, Clone, Copy, PartialEq, Eq, Structural)]
pub enum Step {
    /// Done: mark the file complete, and queue its hash check when asked.
    Complete { queue_verification: bool },
    /// The size does not match: report it and stop.
    Incomplete,
    /// Delete the partial file, wait, and try again with `retries_left`.
    Retry { retries_left: u32 },
    /// Give up: delete the partial file and reset the registry entry.
    Abandon,
}

/// The step after `outcome` with `retries` retries left, and the status
/// line that reports it.
pub open spec fn step_of(outcome: AttemptOutcome, retries: u32, verification_enabled: bool, filename: Seq<char>) -> (Step, Seq<char>) {
    match outcome {
        AttemptOutcome::Finished { final_size, expected_size, has_hash } => if final_size == expected_size && expected_size
            > 0 {
            if verification_enabled && has_hash {
                (Step::Complete { queue_verification: true }, "Download complete, queued for verification: "@ + filename)
            } else if verification_enabled {
                (Step::Complete { queue_verification: false }, "Download complete: "@ + filename + " (no hash available)"@)
            } else {
                (Step::Complete { queue_verification: false }, "Download complete: "@ + filename)
            }
        } else {
            (
                Step::Incomplete,
                "Warning: Download may be incomplete: "@ + filename + " (got "@ + decimal(final_size as nat)
                    + " bytes, expected "@ + decimal(expected_size as nat) + ")"@,
            )
        },
        AttemptOutcome::Failed { transient, reason } => if retries > 0 && transient {
            (
                Step::Retry { retries_left: (retries - 1) as u32 },
                "Download interrupted: "@ + reason@ + ". Retrying ("@ + decimal((retries - 1) as nat) + " left)..."@,
            )
        } else {
            (Step::Abandon, "Error: Download failed after retries: "@ + reason@)
        },
    }
}

/// Decides what follows an attempt (see [`step_of`]).
pub fn next_step(outcome: &AttemptOutcome, retries: u32, verification_enabled: bool, filename: &str) -> (r: (Step, String))
    ensures
        r.0 == step_of(*outcome, retries, verification_enabled, filename@).0,
        r.1@ == step_of(*outcome, retries, verification_enabled, filename@).1,
{
    match outcome {
        AttemptOutcome::Finished { final_size, expected_size, has_hash } => {
            if *final_size == *expected_size && *expected_size > 0 {
                if verification_enabled && *has_hash {
                    let mut m = String::from_str("Download complete, queued for verification: ");
                    m.append(filename);
                    (Step::Complete { queue_verification: true }, m)
                } else if verification_enabled {
                    let mut m = String::from_str("Download complete: ");
                    m.append(filename);
                    m.append(" (no hash available)");
                    (Step::Complete { queue_verification: false }, m)
                } else {
                    let mut m = String::from_str("Download complete: ");
                    m.append(filename);
                    (Step::Complete { queue_verification: false }, m)
                }
            } else {
                let mut m = String::from_str("Warning: Download may be incomplete: ");
                m.append(filename);
                m.append(" (got ");
                let a = decimal_string(*final_size);
                m.append(a.as_str());
                m.append(" bytes, expected ");
                let b = decimal_string(*expected_size);
                m.append(b.as_str());
                m.append(")");
                (Step::Incomplete, m)
            }
        },
        AttemptOutcome::Failed { transient, reason } => {
            if retries > 0 && *transient {
                let left = retries - 1;
                let mut m = String::from_str("Download interrupted: ");
                m.append(reason.as_str());
                m.append(". Retrying (");
                let d = decimal_string(left as u64);
                m.append(d.as_str());
                m.append(" left)...");
                (Step::Retry { retries_left: left }, m)
            } else {
                let mut m = String::from_str("Error: Download failed after retries: ");
                m.append(reason.as_str());
                (Step::Abandon, m)
            }
        },
    }
}

} // verus!
