//! Walking the Hub's file tree: the listing of the repository root, then
//! of each directory met, depth first, keeping the files.  The listing
//! requests are the caller's part; each step here says what to ask next.

use crate::models::LfsInfo;
use crate::text::str_eq;
use vstd::prelude::*;

verus! {

/// One entry of a tree listing: its repo-relative path, whether it is a
/// directory, its size and its LFS object, if any.
#[derive(Debug, Clone)]
pub struct TreeEntry {
    pub path: String,
    pub is_dir: bool,
    pub size: u64,
    pub lfs: Option<LfsInfo>,
}

/// An entry as the listing gives it: a directory when its type is
/// `directory`.
pub fn tree_entry(kind: &str, path: String, size: u64, lfs: Option<LfsInfo>) -> (r: TreeEntry)
    ensures
        r.is_dir == (kind@ == "directory"@),
        r.path == path,
        r.size == size,
        r.lfs == lfs,
{
    TreeEntry { path, is_dir: str_eq(kind, "directory"), size, lfs }
}

/// Where a walk stands: whether it waits for a listing, whether the root
/// listing came, the entries still to visit at each open level (the next
/// one last), and the files kept so far.
pub struct TreeWalk {
    pub waiting: bool,
    pub started: bool,
    pub levels: Vec<Vec<TreeEntry>>,
    pub files: Vec<TreeEntry>,
}

/// What the caller does next.
pub enum WalkAction {
    /// Fetch the listing of this directory (the root when empty) and hand
    /// it back with [`WalkEvent::Listed`].
    Fetch { path: String },
    /// Call again with [`WalkEvent::Proceed`].
    Next,
    /// The walk is over; these are the files, in depth-first order.
    Done { files: Vec<TreeEntry> },
    /// The root listing failed with this reason.
    Fail { reason: String },
    /// The event did not fit the state; nothing changed.
    Ignore,
}

/// What the caller hands back.
pub enum WalkEvent {
    Listed(Result<Vec<TreeEntry>, String>),
    Proceed,
}

pub open spec fn levels_view(v: Seq<Vec<TreeEntry>>) -> Seq<Seq<TreeEntry>> {
    v.map_values(|l: Vec<TreeEntry>| l@)
}

/// The start: waiting for the root listing.
pub fn walk_start() -> (r: (TreeWalk, WalkAction))
    ensures
        r.0.waiting && !r.0.started,
        r.0.levels@.len() == 0,
        r.0.files@.len() == 0,
        r.1 matches WalkAction::Fetch { path } && path@.len() == 0,
{
    (TreeWalk { waiting: true, started: false, levels: Vec::new(), files: Vec::new() }, WalkAction::Fetch {
        path: String::new(),
    })
}

/// One step of the walk.
///
/// - A listing that comes while waiting opens a new level with its
///   entries; a failed listing ends the walk when it is the root's and is
///   skipped when it is a directory's.
/// - `Proceed` visits the next entry of the innermost open level: a file
///   is kept, a directory is fetched; an exhausted level is closed; with no
///   level left the walk is done.
pub fn walk_step(w: TreeWalk, e: WalkEvent) -> (r: (TreeWalk, WalkAction))
    ensures
        ({
            let (t, a) = r;
            match e {
                WalkEvent::Listed(res) => if !w.waiting {
                    a is Ignore && t == w
                } else {
                    match res {
                        Ok(items) => {
                            &&& !t.waiting && t.started
                            &&& levels_view(t.levels@) == levels_view(w.levels@).push(items@.reverse())
                            &&& t.files@ == w.files@
                            &&& a is Next
                        },
                        Err(reason) => if !w.started {
                            a matches WalkAction::Fail { reason: why } && why == reason
                        } else {
                            &&& !t.waiting && t.started
                            &&& levels_view(t.levels@) == levels_view(w.levels@)
                            &&& t.files@ == w.files@
                            &&& a is Next
                        },
                    }
                },
                WalkEvent::Proceed => if w.waiting {
                    a is Ignore && t == w
                } else if w.levels@.len() == 0 {
                    a matches WalkAction::Done { files } && files@ == w.files@
                } else {
                    let lv = levels_view(w.levels@);
                    let top = lv.last();
                    &&& t.started == w.started
                    &&& if top.len() == 0 {
                        &&& !t.waiting
                        &&& levels_view(t.levels@) == lv.drop_last()
                        &&& t.files@ == w.files@
                        &&& a is Next
                    } else {
                        let item = top.last();
                        let rest = lv.update(lv.len() - 1, top.drop_last());
                        &&& levels_view(t.levels@) == rest
                        &&& if item.is_dir {
                            &&& t.waiting
                            &&& t.files@ == w.files@
                            &&& a matches WalkAction::Fetch { path } && path == item.path
                        } else {
                            &&& !t.waiting
                            &&& t.files@ == w.files@.push(item)
                            &&& a is Next
                        }
                    }
                },
            }
        }),
{
    let TreeWalk { waiting, started, mut levels, mut files } = w;
    let ghost lv0 = levels_view(levels@);
    match e {
        WalkEvent::Listed(res) => {
            if !waiting {
                return (TreeWalk { waiting, started, levels, files }, WalkAction::Ignore);
            }
            match res {
                Ok(mut items) => {
                    let ghost orig = items@;
                    let mut rev: Vec<TreeEntry> = Vec::new();
                    while items.len() > 0
                        invariant
                            orig.len() == items@.len() + rev@.len(),
                            items@ == orig.take(items@.len() as int),
                            forall|k: int| 0 <= k < rev@.len() ==> #[trigger] rev@[k] == orig[orig.len() - 1 - k],
                        decreases items.len(),
                    {
                        let x = items.pop().unwrap();
                        rev.push(x);
                        assert(items@ =~= orig.take(items@.len() as int));
                    }
                    assert(rev@ =~= orig.reverse());
                    levels.push(rev);
                    assert(levels_view(levels@) =~= lv0.push(orig.reverse()));
                    (TreeWalk { waiting: false, started: true, levels, files }, WalkAction::Next)
                },
                Err(reason) => {
                    if !started {
                        (TreeWalk { waiting, started, levels, files }, WalkAction::Fail { reason })
                    } else {
                        (TreeWalk { waiting: false, started: true, levels, files }, WalkAction::Next)
                    }
                },
            }
        },
        WalkEvent::Proceed => {
            if waiting {
                return (TreeWalk { waiting, started, levels, files }, WalkAction::Ignore);
            }
            if levels.len() == 0 {
                return (TreeWalk { waiting, started, levels, files: Vec::new() }, WalkAction::Done { files });
            }
            let mut top = levels.pop().unwrap();
            assert(levels_view(levels@) =~= lv0.drop_last());
            match top.pop() {
                None => (TreeWalk { waiting: false, started, levels, files }, WalkAction::Next),
                Some(item) => {
                    let ghost top_rest = top@;
                    levels.push(top);
                    assert(levels_view(levels@) =~= lv0.update(lv0.len() - 1, lv0.last().drop_last()));
                    if item.is_dir {
                        let TreeEntry { path, .. } = item;
                        (TreeWalk { waiting: true, started, levels, files }, WalkAction::Fetch { path })
                    } else {
                        files.push(item);
                        (TreeWalk { waiting: false, started, levels, files }, WalkAction::Next)
                    }
                },
            }
        },
    }
}

} // verus!
