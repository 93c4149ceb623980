//! Views of the download registry: what can be resumed and what is done.

use crate::models::{
    copy_metadata, CompleteDownloads, DownloadMetadata, DownloadRegistry, DownloadStatus,
};
use crate::config::home_or_tmp;
use crate::text::str_eq;
use vstd::prelude::*;

verus! {

/// A registry entry that still needs work: unfinished, or finished with a
/// hash that did not match.
pub open spec fn needs_resume(d: DownloadMetadata) -> bool {
    d.status == DownloadStatus::Incomplete || d.status == DownloadStatus::HashMismatch
}

/// The entries that need work, in registry order.
pub open spec fn incomplete_of(s: Seq<DownloadMetadata>) -> Seq<DownloadMetadata>
    decreases s.len(),
{
    if s.len() == 0 {
        Seq::<DownloadMetadata>::empty()
    } else if needs_resume(s.last()) {
        incomplete_of(s.drop_last()).push(s.last())
    } else {
        incomplete_of(s.drop_last())
    }
}

/// Completed entries by file name (a later entry replaces an earlier one).
pub open spec fn complete_of(s: Seq<DownloadMetadata>) -> Map<Seq<char>, DownloadMetadata>
    decreases s.len(),
{
    if s.len() == 0 {
        Map::<Seq<char>, DownloadMetadata>::empty()
    } else if s.last().status == DownloadStatus::Complete {
        complete_of(s.drop_last()).insert(s.last().filename@, s.last())
    } else {
        complete_of(s.drop_last())
    }
}

/// Downloads that can be resumed: unfinished ones and those whose hash
/// did not match, in registry order.
pub fn get_incomplete_downloads(registry: &DownloadRegistry) -> (r: Vec<DownloadMetadata>)
    ensures
        r@ == incomplete_of(registry.downloads@),
{
    let s = &registry.downloads;
    let mut r: Vec<DownloadMetadata> = Vec::new();
    let mut i: usize = 0;
    while i < s.len()
        invariant
            i <= s@.len(),
            r@ == incomplete_of(s@.take(i as int)),
        decreases s.len() - i,
    {
        proof {
            assert(s@.take(i + 1).drop_last() =~= s@.take(i as int));
            assert(s@.take(i + 1).last() == s@[i as int]);
        }
        if s[i].status == DownloadStatus::Incomplete || s[i].status == DownloadStatus::HashMismatch {
            r.push(copy_metadata(&s[i]));
        }
        i += 1;
    }
    assert(s@.take(s@.len() as int) =~= s@);
    r
}

/// Completed downloads keyed by file name.
pub fn get_complete_downloads(registry: &DownloadRegistry) -> (r: CompleteDownloads)
    ensures
        r.wf(),
        r.contents() == complete_of(registry.downloads@),
{
    let s = &registry.downloads;
    let mut r = CompleteDownloads::new();
    let mut i: usize = 0;
    while i < s.len()
        invariant
            i <= s@.len(),
            r.wf(),
            r.contents() == complete_of(s@.take(i as int)),
        decreases s.len() - i,
    {
        proof {
            assert(s@.take(i + 1).drop_last() =~= s@.take(i as int));
            assert(s@.take(i + 1).last() == s@[i as int]);
        }
        if s[i].status == DownloadStatus::Complete {
            r.insert(s[i].filename.clone(), copy_metadata(&s[i]));
        }
        i += 1;
    }
    assert(s@.take(s@.len() as int) =~= s@);
    r
}

/// The entries whose URL is not `url`, in registry order.
pub open spec fn without_url(s: Seq<DownloadMetadata>, url: Seq<char>) -> Seq<DownloadMetadata>
    decreases s.len(),
{
    if s.len() == 0 {
        Seq::<DownloadMetadata>::empty()
    } else if s.last().url@ != url {
        without_url(s.drop_last(), url).push(s.last())
    } else {
        without_url(s.drop_last(), url)
    }
}

/// Drops every entry for `url` (a deleted unfinished download).
pub fn forget_download(registry: &mut DownloadRegistry, url: &str)
    ensures
        final(registry).downloads@ == without_url(old(registry).downloads@, url@),
{
    let mut kept: Vec<DownloadMetadata> = Vec::new();
    let s = &registry.downloads;
    let mut i: usize = 0;
    while i < s.len()
        invariant
            i <= s@.len(),
            kept@ == without_url(s@.take(i as int), url@),
        decreases s.len() - i,
    {
        proof {
            assert(s@.take(i + 1).drop_last() =~= s@.take(i as int));
            assert(s@.take(i + 1).last() == s@[i as int]);
        }
        if !str_eq(s[i].url.as_str(), url) {
            kept.push(copy_metadata(&s[i]));
        }
        i += 1;
    }
    assert(s@.take(s@.len() as int) =~= s@);
    registry.downloads = kept;
}

/// The registry file below a home directory (`HOME`, or `/tmp` when it is
/// not set): `<home>/models/hf-downloads.toml`, next to the downloads.
pub fn get_registry_path(home: Option<String>) -> (r: String)
    ensures
        r@ == home_or_tmp(home) + "/models/hf-downloads.toml"@,
{
    let mut p = match home {
        Some(h) => h,
        None => String::from_str("/tmp"),
    };
    p.append("/models/hf-downloads.toml");
    p
}

} // verus!
