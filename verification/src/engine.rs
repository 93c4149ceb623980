//! Registry bookkeeping shared by both frontends.

use crate::api::{resolve_url, url_of};
use crate::models::{copy_metadata, DownloadMetadata, DownloadRegistry, DownloadStatus};
use crate::text::str_eq;
use crate::quant::opt_str_view;
use vstd::prelude::*;

verus! {

/// A registry entry as plain values.
pub struct MetaView {
    pub model_id: Seq<char>,
    pub filename: Seq<char>,
    pub url: Seq<char>,
    pub local_path: Seq<char>,
    pub total_size: u64,
    pub downloaded_size: u64,
    pub status: DownloadStatus,
    pub expected_sha256: Option<Seq<char>>,
}

pub open spec fn meta_view(d: DownloadMetadata) -> MetaView {
    MetaView {
        model_id: d.model_id@,
        filename: d.filename@,
        url: d.url@,
        local_path: d.local_path@,
        total_size: d.total_size,
        downloaded_size: d.downloaded_size,
        status: d.status,
        expected_sha256: opt_str_view(d.expected_sha256),
    }
}

pub open spec fn metas_view(s: Seq<DownloadMetadata>) -> Seq<MetaView> {
    s.map_values(|d: DownloadMetadata| meta_view(d))
}

/// A file about to be queued: name, size, expected SHA256, and the local
/// path its name was validated to.
pub type PendingFile = (String, u64, Option<String>, String);

/// A pending file as plain values.
pub open spec fn pending_view_of(p: PendingFile) -> (Seq<char>, u64, Option<Seq<char>>, Seq<char>) {
    (p.0@, p.1, opt_str_view(p.2), p.3@)
}

/// Some entry already has the URL.
pub open spec fn has_url(s: Seq<MetaView>, url: Seq<char>) -> bool {
    exists|i: int| 0 <= i < s.len() && (#[trigger] s[i]).url == url
}

/// The registry after seeding `files`: each file whose URL no entry has
/// yet gets an `Incomplete` entry with nothing downloaded.
pub open spec fn with_pending(s: Seq<MetaView>, base: Seq<char>, model_id: Seq<char>, files: Seq<PendingFile>) -> Seq<MetaView>
    decreases files.len(),
{
    if files.len() == 0 {
        s
    } else {
        let prev = with_pending(s, base, model_id, files.drop_last());
        let f = files.last();
        let url = url_of(base, model_id, f.0@);
        if has_url(prev, url) {
            prev
        } else {
            prev.push(
                MetaView {
                    model_id,
                    filename: f.0@,
                    url,
                    local_path: f.3@,
                    total_size: f.1,
                    downloaded_size: 0,
                    status: DownloadStatus::Incomplete,
                    expected_sha256: opt_str_view(f.2),
                },
            )
        }
    }
}

fn registry_has_url(ds: &Vec<DownloadMetadata>, url: &String) -> (r: bool)
    ensures
        r == has_url(metas_view(ds@), url@),
{
    let ghost mv = metas_view(ds@);
    let mut i: usize = 0;
    while i < ds.len()
        invariant
            i <= ds@.len(),
            mv == metas_view(ds@),
            forall|j: int| 0 <= j < i ==> (#[trigger] mv[j]).url != url@,
        decreases ds.len() - i,
    {
        if ds[i].url == *url {
            assert(mv[i as int].url == url@);
            return true;
        }
        i += 1;
    }
    false
}

/// Seeds the registry with `Incomplete` entries for files about to be
/// queued (skipping URLs it already tracks), so downloads started from the
/// command line show up in the interface's resume and complete views.
/// `base` is the Hub base URL; the local paths were validated by the
/// caller.
pub fn register_pending(registry: &mut DownloadRegistry, base: &str, model_id: &str, files: &[PendingFile])
    ensures
        metas_view(final(registry).downloads@) == with_pending(metas_view(old(registry).downloads@), base@, model_id@, files@),
{
    let mut i: usize = 0;
    while i < files.len()
        invariant
            i <= files@.len(),
            metas_view(registry.downloads@) == with_pending(metas_view(old(registry).downloads@), base@, model_id@, files@.take(i as int)),
        decreases files.len() - i,
    {
        proof {
            assert(files@.take(i + 1).drop_last() =~= files@.take(i as int));
            assert(files@.take(i + 1).last() == files@[i as int]);
        }
        let f = &files[i];
        let url = resolve_url(base, model_id, f.0.as_str());
        if !registry_has_url(&registry.downloads, &url) {
            let ghost before = registry.downloads@;
            let entry = DownloadMetadata {
                model_id: String::from_str(model_id),
                filename: f.0.clone(),
                url,
                local_path: f.3.clone(),
                total_size: f.1,
                downloaded_size: 0,
                status: DownloadStatus::Incomplete,
                expected_sha256: match &f.2 {
                    Some(s) => Some(s.clone()),
                    None => None,
                },
            };
            registry.downloads.push(entry);
            assert(metas_view(registry.downloads@) =~= metas_view(before).push(meta_view(entry)));
        }
        i += 1;
    }
    assert(files@.take(files@.len() as int) =~= files@);
}

/// Check `k` is the first that failed.
pub open spec fn first_failure(checked: Seq<Result<String, String>>, k: int) -> bool {
    &&& 0 <= k < checked.len()
    &&& checked[k] is Err
    &&& forall|i: int| 0 <= i < k ==> (#[trigger] checked[i]) is Ok
}

/// The pending entry of a file whose target path passed its check.
pub open spec fn checked_entry(f: (String, u64, Option<String>), path: Seq<char>) -> (Seq<char>, u64, Option<Seq<char>>, Seq<char>) {
    (f.0@, f.1, opt_str_view(f.2), path)
}

fn copy_opt(o: &Option<String>) -> (r: Option<String>)
    ensures
        r == *o,
{
    match o {
        Some(v) => Some(v.clone()),
        None => None,
    }
}

/// Registers `files` (name, size, expected SHA256), whose target paths were
/// checked in `checked` (the path, or the reason it was refused), only when
/// every check passed: then each file is seeded as [`register_pending`]
/// does and the entries are returned; otherwise the first refusal is
/// returned and the registry is left as it was.
pub fn register_checked(
    registry: &mut DownloadRegistry,
    base: &str,
    model_id: &str,
    files: &[(String, u64, Option<String>)],
    checked: &[Result<String, String>],
) -> (r: Result<Vec<PendingFile>, String>)
    requires
        files@.len() == checked@.len(),
    ensures
        r is Ok <==> forall|i: int| 0 <= i < checked@.len() ==> (#[trigger] checked@[i]) is Ok,
        forall|k: int|
            first_failure(checked@, k) ==> (r matches Err(e) && e@ == checked@[k]->Err_0@
                && final(registry).downloads@ == old(registry).downloads@),
        r matches Ok(p) ==> {
            &&& p@.len() == files@.len()
            &&& forall|i: int| 0 <= i < p@.len() ==> #[trigger] pending_view_of(p@[i]) == checked_entry(files@[i], checked@[i]->Ok_0@)
            &&& metas_view(final(registry).downloads@) == with_pending(metas_view(old(registry).downloads@), base@, model_id@, p@)
        },
{
    let mut k: usize = 0;
    while k < checked.len()
        invariant
            k <= checked@.len(),
            forall|i: int| 0 <= i < k ==> (#[trigger] checked@[i]) is Ok,
        decreases checked.len() - k,
    {
        match &checked[k] {
            Err(e) => {
                assert(first_failure(checked@, k as int));
                assert forall|j: int| first_failure(checked@, j) implies j == k by {
                    if j < k {
                        assert(checked@[j] is Ok);
                    } else if j > k {
                        assert(checked@[k as int] is Ok);
                    }
                }
                return Err(e.clone());
            },
            Ok(_) => {},
        }
        k += 1;
    }
    let mut pending: Vec<PendingFile> = Vec::new();
    let mut i: usize = 0;
    while i < files.len()
        invariant
            i <= files@.len(),
            files@.len() == checked@.len(),
            forall|j: int| 0 <= j < checked@.len() ==> (#[trigger] checked@[j]) is Ok,
            pending@.len() == i,
            forall|j: int| 0 <= j < i ==> #[trigger] pending_view_of(pending@[j]) == checked_entry(files@[j], checked@[j]->Ok_0@),
        decreases files.len() - i,
    {
        let path = match &checked[i] {
            Ok(p) => p.clone(),
            Err(e) => e.clone(),
        };
        assert(checked@[i as int] is Ok);
        let f = &files[i];
        pending.push((f.0.clone(), f.1, copy_opt(&f.2), path));
        i += 1;
    }
    register_pending(registry, base, model_id, pending.as_slice());
    Ok(pending)
}

/// Index of the first entry with the URL, from `i` on.
pub open spec fn first_url_from(s: Seq<DownloadMetadata>, url: Seq<char>, i: nat) -> Option<nat>
    decreases s.len() - i,
{
    if i >= s.len() {
        None
    } else if s[i as int].url@ == url {
        Some(i)
    } else {
        first_url_from(s, url, i + 1)
    }
}

/// Index of the first entry with the URL.
pub open spec fn first_url(s: Seq<DownloadMetadata>, url: Seq<char>) -> Option<nat> {
    first_url_from(s, url, 0)
}

fn find_url(ds: &Vec<DownloadMetadata>, url: &str) -> (r: Option<usize>)
    ensures
        match r {
            Some(i) => i < ds@.len() && first_url(ds@, url@) == Some(i as nat),
            None => first_url(ds@, url@) is None,
        },
{
    let mut i: usize = 0;
    while i < ds.len()
        invariant
            i <= ds@.len(),
            first_url(ds@, url@) == first_url_from(ds@, url@, i as nat),
        decreases ds.len() - i,
    {
        if str_eq(ds[i].url.as_str(), url) {
            return Some(i);
        }
        i += 1;
    }
    None
}

/// Records the size of a download about to start: the first entry for
/// `url` gets `total_size` with nothing downloaded; without one, a new
/// `Incomplete` entry is added.
pub fn record_total_size(
    registry: &mut DownloadRegistry,
    url: &str,
    model_id: &str,
    filename: &str,
    local_path: &str,
    total_size: u64,
    expected_sha256: &Option<String>,
)
    ensures
        match first_url(old(registry).downloads@, url@) {
            Some(i) => final(registry).downloads@ == old(registry).downloads@.update(
                i as int,
                DownloadMetadata { total_size, downloaded_size: 0, ..old(registry).downloads@[i as int] },
            ),
            None => metas_view(final(registry).downloads@) == metas_view(old(registry).downloads@).push(
                MetaView {
                    model_id: model_id@,
                    filename: filename@,
                    url: url@,
                    local_path: local_path@,
                    total_size,
                    downloaded_size: 0,
                    status: DownloadStatus::Incomplete,
                    expected_sha256: opt_str_view(*expected_sha256),
                },
            ),
        },
{
    match find_url(&registry.downloads, url) {
        Some(i) => {
            let mut e = copy_metadata(&registry.downloads[i]);
            e.total_size = total_size;
            e.downloaded_size = 0;
            registry.downloads.set(i, e);
        },
        None => {
            let ghost before = registry.downloads@;
            let entry = DownloadMetadata {
                model_id: String::from_str(model_id),
                filename: String::from_str(filename),
                url: String::from_str(url),
                local_path: String::from_str(local_path),
                total_size,
                downloaded_size: 0,
                status: DownloadStatus::Incomplete,
                expected_sha256: match expected_sha256 {
                    Some(h) => Some(h.clone()),
                    None => None,
                },
            };
            registry.downloads.push(entry);
            assert(metas_view(registry.downloads@) =~= metas_view(before).push(meta_view(entry)));
        },
    }
}

/// Sets the status of the first entry for `url` (and its downloaded size,
/// when given) and returns the updated entry; without an entry nothing
/// changes.
pub fn mark_download(
    registry: &mut DownloadRegistry,
    url: &str,
    status: DownloadStatus,
    downloaded_size: Option<u64>,
) -> (r: Option<DownloadMetadata>)
    ensures
        match first_url(old(registry).downloads@, url@) {
            Some(i) => {
                let e = old(registry).downloads@[i as int];
                let n = DownloadMetadata {
                    status,
                    downloaded_size: match downloaded_size {
                        Some(d) => d,
                        None => e.downloaded_size,
                    },
                    ..e
                };
                &&& final(registry).downloads@ == old(registry).downloads@.update(i as int, n)
                &&& r == Some(n)
            },
            None => r is None && final(registry).downloads@ == old(registry).downloads@,
        },
{
    match find_url(&registry.downloads, url) {
        Some(i) => {
            let mut e = copy_metadata(&registry.downloads[i]);
            e.status = status;
            if let Some(d) = downloaded_size {
                e.downloaded_size = d;
            }
            let out = copy_metadata(&e);
            registry.downloads.set(i, e);
            Some(out)
        },
        None => None,
    }
}

/// Index of the first entry stored at `path`, from `i` on.
pub open spec fn first_path_from(s: Seq<DownloadMetadata>, path: Seq<char>, i: nat) -> Option<nat>
    decreases s.len() - i,
{
    if i >= s.len() {
        None
    } else if s[i as int].local_path@ == path {
        Some(i)
    } else {
        first_path_from(s, path, i + 1)
    }
}

/// Sets the status of the first entry stored at `local_path` (a hash
/// check reports by path); without one nothing changes.
pub fn mark_local_path(registry: &mut DownloadRegistry, local_path: &str, status: DownloadStatus)
    ensures
        match first_path_from(old(registry).downloads@, local_path@, 0) {
            Some(i) => final(registry).downloads@ == old(registry).downloads@.update(
                i as int,
                DownloadMetadata { status, ..old(registry).downloads@[i as int] },
            ),
            None => final(registry).downloads@ == old(registry).downloads@,
        },
{
    let mut i: usize = 0;
    while i < registry.downloads.len()
        invariant
            i <= registry.downloads@.len(),
            registry.downloads@ == old(registry).downloads@,
            first_path_from(registry.downloads@, local_path@, 0) == first_path_from(
                registry.downloads@,
                local_path@,
                i as nat,
            ),
        decreases registry.downloads@.len() - i,
    {
        if str_eq(registry.downloads[i].local_path.as_str(), local_path) {
            let mut e = copy_metadata(&registry.downloads[i]);
            e.status = status;
            registry.downloads.set(i, e);
            return;
        }
        i += 1;
    }
}

} // verus!
