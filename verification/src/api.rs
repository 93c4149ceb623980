//! Repository listings: grouping GGUF files into quantization groups,
//! detecting GGUF repositories, and download URLs.

use crate::models::{LfsInfo, ModelMetadata, QuantizationGroup, QuantizationInfo, RepoFile};
use crate::quant::{
    classify_quant, classify_quant_chars, is_gguf, is_gguf_path_chars, name_other, opt_str_view,
};
use crate::text::{chars_eq, ends_with, from_chars, has_suffix, to_chars, trim_end_all, trim_end_matches};
pub use crate::tree::build_file_tree;
use vstd::prelude::*;

verus! {

// ---------------------------------------------------------------------------
// Views
// ---------------------------------------------------------------------------

/// One classified GGUF file, as plain values.
pub struct QEntry {
    pub quant_type: Seq<char>,
    pub filename: Seq<char>,
    pub size: u64,
    pub sha256: Option<Seq<char>>,
}

pub open spec fn info_view(q: QuantizationInfo) -> QEntry {
    QEntry {
        quant_type: q.quant_type@,
        filename: q.filename@,
        size: q.size,
        sha256: opt_str_view(q.sha256),
    }
}

pub open spec fn infos_view(v: Seq<QuantizationInfo>) -> Seq<QEntry> {
    v.map_values(|q: QuantizationInfo| info_view(q))
}

/// SHA256 recorded for a repo file: its LFS object id.
pub open spec fn lfs_sha(l: Option<LfsInfo>) -> Option<Seq<char>> {
    match l {
        Some(x) => Some(x.oid@),
        None => None,
    }
}

/// The size of a listed file, 0 when unknown.
pub open spec fn size_or_zero(s: Option<u64>) -> u64 {
    match s {
        Some(x) => x,
        None => 0,
    }
}

/// A repo file takes part in quantization grouping: it is a GGUF-family
/// file and not a directory row (trailing `/`).
pub open spec fn is_grouped(f: RepoFile) -> bool {
    !has_suffix(f.rfilename@, seq!['/']) && is_gguf(f.rfilename@)
}

pub open spec fn entry_of(f: RepoFile) -> QEntry {
    QEntry {
        quant_type: classify_quant(f.rfilename@),
        filename: f.rfilename@,
        size: size_or_zero(f.size),
        sha256: lfs_sha(f.lfs),
    }
}

/// The grouped files of a listing, in listing order, as entries.
pub open spec fn gguf_entries(files: Seq<RepoFile>) -> Seq<QEntry>
    decreases files.len(),
{
    if files.len() == 0 {
        Seq::<QEntry>::empty()
    } else {
        let r = gguf_entries(files.drop_last());
        if is_grouped(files.last()) {
            r.push(entry_of(files.last()))
        } else {
            r
        }
    }
}

/// The entries of quantization type `qt`, in order.
pub open spec fn entries_of_type(es: Seq<QEntry>, qt: Seq<char>) -> Seq<QEntry>
    decreases es.len(),
{
    if es.len() == 0 {
        Seq::<QEntry>::empty()
    } else {
        let r = entries_of_type(es.drop_last(), qt);
        if es.last().quant_type == qt {
            r.push(es.last())
        } else {
            r
        }
    }
}

/// Sum of the sizes of the entries.
pub open spec fn sum_sizes(es: Seq<QEntry>) -> int
    decreases es.len(),
{
    if es.len() == 0 {
        0
    } else {
        sum_sizes(es.drop_last()) + es.last().size
    }
}

/// Sort key of a group: every non-`OTHER` group before `OTHER`, larger
/// total size first.
pub open spec fn group_key(g: QuantizationGroup) -> int {
    (if g.quant_type@ == name_other() {
        1int
    } else {
        0int
    }) * 0x1_0000_0000_0000_0000int + (u64::MAX - g.total_size)
}

/// A group holds exactly the entries of its type, with their total size.
pub open spec fn group_matches(g: QuantizationGroup, es: Seq<QEntry>) -> bool {
    &&& infos_view(g.files@) == entries_of_type(es, g.quant_type@)
    &&& g.total_size == sum_sizes(entries_of_type(es, g.quant_type@))
    &&& entries_of_type(es, g.quant_type@).len() > 0
}

// ---------------------------------------------------------------------------
// Lemmas
// ---------------------------------------------------------------------------

proof fn lemma_sum_nonneg(es: Seq<QEntry>)
    ensures
        sum_sizes(es) >= 0,
    decreases es.len(),
{
    if es.len() > 0 {
        lemma_sum_nonneg(es.drop_last());
    }
}

proof fn lemma_sum_push(es: Seq<QEntry>, e: QEntry)
    ensures
        sum_sizes(es.push(e)) == sum_sizes(es) + e.size,
        entries_of_type(es.push(e), e.quant_type) == entries_of_type(es, e.quant_type).push(e),
        forall|qt: Seq<char>|
            qt != e.quant_type ==> #[trigger] entries_of_type(es.push(e), qt) == entries_of_type(
                es,
                qt,
            ),
{
    assert(es.push(e).drop_last() =~= es);
    assert(es.push(e).last() == e);
}

proof fn lemma_type_sum_le(es: Seq<QEntry>, qt: Seq<char>)
    ensures
        sum_sizes(entries_of_type(es, qt)) <= sum_sizes(es),
    decreases es.len(),
{
    if es.len() > 0 {
        let prev = es.drop_last();
        let e = es.last();
        assert(prev.push(e) =~= es);
        lemma_type_sum_le(prev, qt);
        lemma_sum_nonneg(prev);
        lemma_sum_push(prev, e);
        lemma_sum_push(entries_of_type(prev, qt), e);
    }
}

proof fn lemma_entries_prefix(files: Seq<RepoFile>, k: int)
    requires
        0 <= k <= files.len(),
    ensures
        sum_sizes(gguf_entries(files.take(k))) <= sum_sizes(gguf_entries(files)),
    decreases files.len() - k,
{
    if k < files.len() {
        lemma_entries_prefix(files, k + 1);
        assert(files.take(k + 1).drop_last() =~= files.take(k));
        let prev = gguf_entries(files.take(k));
        if is_grouped(files.take(k + 1).last()) {
            lemma_sum_push(prev, entry_of(files.take(k + 1).last()));
        }
    } else {
        assert(files.take(k) =~= files);
    }
}

proof fn lemma_type_of_entries(es: Seq<QEntry>, qt: Seq<char>)
    ensures
        forall|m: int|
            0 <= m < entries_of_type(es, qt).len() ==> (#[trigger] entries_of_type(es, qt)[m]).quant_type
                == qt,
        entries_of_type(es, qt).len() > 0 <==> exists|m: int|
            0 <= m < es.len() && (#[trigger] es[m]).quant_type == qt,
    decreases es.len(),
{
    if es.len() > 0 {
        lemma_type_of_entries(es.drop_last(), qt);
        let r = entries_of_type(es.drop_last(), qt);
        if exists|m: int| 0 <= m < es.drop_last().len() && (#[trigger] es.drop_last()[m]).quant_type
            == qt {
            let m = choose|m: int|
                0 <= m < es.drop_last().len() && (#[trigger] es.drop_last()[m]).quant_type == qt;
            assert(es[m] == es.drop_last()[m]);
        }
        if exists|m: int| 0 <= m < es.len() && (#[trigger] es[m]).quant_type == qt {
            let m = choose|m: int| 0 <= m < es.len() && (#[trigger] es[m]).quant_type == qt;
            if m < es.len() - 1 {
                assert(es.drop_last()[m] == es[m]);
            }
        }
    }
}

// ---------------------------------------------------------------------------
// Classification
// ---------------------------------------------------------------------------

fn sha_of(l: &Option<LfsInfo>) -> (r: Option<String>)
    ensures
        opt_str_view(r) == lfs_sha(*l),
{
    match l {
        Some(x) => Some(x.oid.clone()),
        None => None,
    }
}

fn is_grouped_file(f: &RepoFile) -> (r: bool)
    ensures
        r == is_grouped(*f),
{
    let cs = to_chars(f.rfilename.as_str());
    let slash = vec!['/'];
    assert(slash@ =~= seq!['/']);
    !ends_with(cs.as_slice(), slash.as_slice()) && is_gguf_path_chars(cs.as_slice())
}

/// What [`classify_quantizations`] promises of its groups `r` for the
/// listing `files`: each group matches the grouped entries, every entry's
/// type has a group, the types are distinct, and the groups come in key
/// order.
pub open spec fn classification(files: Seq<RepoFile>, r: Seq<QuantizationGroup>) -> bool {
    &&& forall|i: int| 0 <= i < r.len() ==> group_matches(#[trigger] r[i], gguf_entries(files))
    &&& forall|m: int|
        0 <= m < gguf_entries(files).len() ==> exists|i: int|
            0 <= i < r.len() && (#[trigger] r[i]).quant_type@ == (#[trigger] gguf_entries(files)[m]).quant_type
    &&& forall|i: int, j: int|
        0 <= i < r.len() && 0 <= j < r.len() && i != j ==> (#[trigger] r[i]).quant_type@ != (#[trigger] r[j]).quant_type@
    &&& forall|i: int, j: int| 0 <= i < j < r.len() ==> group_key(#[trigger] r[i]) <= group_key(#[trigger] r[j])
}

proof fn lemma_gguf_prefix(files: Seq<RepoFile>, k: int)
    requires
        0 <= k <= files.len(),
    ensures
        sum_sizes(gguf_entries(files.take(k))) <= sum_sizes(gguf_entries(files)),
    decreases files.len() - k,
{
    if k < files.len() {
        lemma_gguf_prefix(files, k + 1);
        assert(files.take(k + 1).drop_last() =~= files.take(k));
        assert(files.take(k + 1).last() == files[k]);
        let e = gguf_entries(files.take(k));
        assert(e.push(entry_of(files[k])).drop_last() =~= e);
    } else {
        assert(files.take(k) =~= files);
    }
}

/// Whether the sizes of the grouped files add up within a `u64`, as
/// [`classify_quantizations`] needs.
pub fn gguf_total_fits(files: &[RepoFile]) -> (r: bool)
    ensures
        r == (sum_sizes(gguf_entries(files@)) <= u64::MAX),
{
    let mut acc: u64 = 0;
    let mut i: usize = 0;
    while i < files.len()
        invariant
            i <= files@.len(),
            acc == sum_sizes(gguf_entries(files@.take(i as int))),
        decreases files.len() - i,
    {
        proof {
            assert(files@.take(i + 1).drop_last() =~= files@.take(i as int));
            assert(files@.take(i + 1).last() == files@[i as int]);
            let e = gguf_entries(files@.take(i as int));
            assert(e.push(entry_of(files@[i as int])).drop_last() =~= e);
        }
        if is_grouped_file(&files[i]) {
            let n: u64 = match files[i].size {
                Some(x) => x,
                None => 0,
            };
            if n > u64::MAX - acc {
                proof {
                    lemma_gguf_prefix(files@, i + 1);
                }
                return false;
            }
            acc = acc + n;
        }
        i += 1;
    }
    assert(files@.take(files@.len() as int) =~= files@);
    true
}

/// Groups the GGUF-family files of a complete recursive repo listing by
/// quantization type (see [`classify_quant`]): each group holds every such
/// file of its type in listing order with their summed size; groups are
/// distinct, cover every such file, and come ordered by total size
/// (largest first) with `OTHER` last.  Other files (configs, safetensors,
/// directory rows) are not grouped.
pub fn classify_quantizations(files: &[RepoFile]) -> (r: Vec<QuantizationGroup>)
    requires
        sum_sizes(gguf_entries(files@)) <= u64::MAX,
    ensures
        forall|i: int| 0 <= i < r@.len() ==> group_matches(#[trigger] r@[i], gguf_entries(files@)),
        forall|m: int|
            0 <= m < gguf_entries(files@).len() ==> exists|i: int|
                0 <= i < r@.len() && (#[trigger] r@[i]).quant_type@ == (
                #[trigger] gguf_entries(files@)[m]).quant_type,
        forall|i: int, j: int|
            0 <= i < r@.len() && 0 <= j < r@.len() && i != j ==> (#[trigger] r@[i]).quant_type@
                != (#[trigger] r@[j]).quant_type@,
        forall|i: int, j: int|
            0 <= i < j < r@.len() ==> group_key(#[trigger] r@[i]) <= group_key(#[trigger] r@[j]),
        classification(files@, r@),
{
    let ghost es_all = gguf_entries(files@);
    let mut groups: Vec<QuantizationGroup> = Vec::new();
    let mut keys: Vec<Vec<char>> = Vec::new();
    let mut k: usize = 0;
    while k < files.len()
        invariant
            k <= files.len(),
            es_all == gguf_entries(files@),
            sum_sizes(es_all) <= u64::MAX,
            groups@.len() == keys@.len(),
            forall|j: int| 0 <= j < keys@.len() ==> (#[trigger] keys@[j])@ == groups@[j].quant_type@,
            forall|j: int|
                0 <= j < groups@.len() ==> group_matches(
                    #[trigger] groups@[j],
                    gguf_entries(files@.take(k as int)),
                ),
            forall|m: int|
                0 <= m < gguf_entries(files@.take(k as int)).len() ==> exists|j: int|
                    0 <= j < keys@.len() && (#[trigger] keys@[j])@ == (#[trigger] gguf_entries(
                        files@.take(k as int),
                    )[m]).quant_type,
            forall|i: int, j: int|
                0 <= i < keys@.len() && 0 <= j < keys@.len() && i != j ==> (#[trigger] keys@[i])@
                    != (#[trigger] keys@[j])@,
        decreases files.len() - k,
    {
        let ghost es_prev = gguf_entries(files@.take(k as int));
        proof {
            assert(files@.take(k + 1).drop_last() =~= files@.take(k as int));
            assert(files@.take(k + 1).last() == files@[k as int]);
        }
        let f = &files[k];
        if is_grouped_file(f) {
            let path = to_chars(f.rfilename.as_str());
            let qt = classify_quant_chars(path.as_slice());
            let size: u64 = match f.size {
                Some(s) => s,
                None => 0,
            };
            let info = QuantizationInfo {
                quant_type: from_chars(qt.as_slice()),
                filename: f.rfilename.clone(),
                size,
                sha256: sha_of(&f.lfs),
            };
            let ghost e = entry_of(*f);
            let ghost es_new = gguf_entries(files@.take(k + 1));
            assert(es_new == es_prev.push(e));
            assert(info_view(info) == e);
            proof {
                lemma_entries_prefix(files@, k + 1);
                lemma_type_sum_le(es_new, e.quant_type);
            }
            // find the group of this type
            let mut j: usize = 0;
            let mut found: bool = false;
            while j < keys.len() && !found
                invariant
                    j <= keys@.len(),
                    found ==> j < keys@.len() && keys@[j as int]@ == qt@,
                    forall|i: int| 0 <= i < j ==> (#[trigger] keys@[i])@ != qt@,
                decreases keys.len() - j + (if found { 0int } else { 1int }),
            {
                if chars_eq(keys[j].as_slice(), qt.as_slice()) {
                    found = true;
                } else {
                    j += 1;
                }
            }
            proof {
                lemma_sum_push(es_prev, e);
            }
            if found {
                let ghost old_groups = groups@;
                let mut g = groups.remove(j);
                let ghost old_files = g.files@;
                assert(g == old_groups[j as int]);
                assert(group_matches(g, es_prev));
                proof {
                    lemma_sum_push(entries_of_type(es_prev, e.quant_type), e);
                }
                g.files.push(info);
                assert(infos_view(g.files@) =~= infos_view(old_files).push(e));
                assert(entries_of_type(es_new, e.quant_type) == entries_of_type(
                    es_prev,
                    e.quant_type,
                ).push(e));
                g.total_size = g.total_size + size;
                groups.insert(j, g);
                proof {
                    assert(groups@ =~= old_groups.update(j as int, g));
                    assert forall|i: int| 0 <= i < groups@.len() implies group_matches(
                        #[trigger] groups@[i],
                        es_new,
                    ) by {
                        if i != j {
                            let gi = groups@[i];
                            assert(gi == old_groups[i]);
                            assert(keys@[i]@ != keys@[j as int]@);
                            assert(gi.quant_type@ != e.quant_type);
                            assert(entries_of_type(es_new, gi.quant_type@) == entries_of_type(
                                es_prev,
                                gi.quant_type@,
                            ));
                        }
                    }
                    assert forall|m: int| 0 <= m < es_new.len() implies exists|i: int|
                        0 <= i < keys@.len() && (#[trigger] keys@[i])@ == (
                        #[trigger] es_new[m]).quant_type by {
                        if m < es_prev.len() {
                            assert(es_new[m] == es_prev[m]);
                        } else {
                            assert(keys@[j as int]@ == es_new[m].quant_type);
                        }
                    }
                }
            } else {
                let ghost old_groups = groups@;
                let ghost old_keys = keys@;
                let mut v: Vec<QuantizationInfo> = Vec::new();
                v.push(info);
                let g = QuantizationGroup { quant_type: from_chars(qt.as_slice()), files: v, total_size: size };
                proof {
                    lemma_type_of_entries(es_prev, e.quant_type);
                    if entries_of_type(es_prev, e.quant_type).len() > 0 {
                        let m = choose|m: int|
                            0 <= m < es_prev.len() && (#[trigger] es_prev[m]).quant_type
                                == e.quant_type;
                        let jj = choose|jj: int|
                            0 <= jj < keys@.len() && (#[trigger] keys@[jj])@ == (
                            #[trigger] es_prev[m]).quant_type;
                        assert(false);
                    }
                    assert(entries_of_type(es_prev, e.quant_type) =~= Seq::<QEntry>::empty());
                    assert(Seq::<QEntry>::empty().push(e) =~= seq![e]);
                    assert(entries_of_type(es_new, e.quant_type) =~= seq![e]);
                    assert(infos_view(g.files@) =~= seq![e]);
                    lemma_sum_push(Seq::<QEntry>::empty(), e);
                }
                groups.push(g);
                keys.push(qt);
                proof {
                    assert forall|i: int| 0 <= i < groups@.len() implies group_matches(
                        #[trigger] groups@[i],
                        es_new,
                    ) by {
                        if i < old_groups.len() {
                            let gi = groups@[i];
                            assert(gi == old_groups[i]);
                            assert(keys@[i] == old_keys[i]);
                            assert(gi.quant_type@ != e.quant_type);
                        }
                    }
                    assert forall|m: int| 0 <= m < es_new.len() implies exists|i: int|
                        0 <= i < keys@.len() && (#[trigger] keys@[i])@ == (
                        #[trigger] es_new[m]).quant_type by {
                        if m < es_prev.len() {
                            assert(es_new[m] == es_prev[m]);
                            let jj = choose|jj: int|
                                0 <= jj < old_keys.len() && (#[trigger] old_keys[jj])@ == (
                                #[trigger] es_prev[m]).quant_type;
                            assert(keys@[jj] == old_keys[jj]);
                        } else {
                            assert(keys@[keys@.len() - 1]@ == es_new[m].quant_type);
                        }
                    }
                }
            }
        } else {
            assert(gguf_entries(files@.take(k + 1)) == es_prev);
        }
        k += 1;
    }
    proof {
        assert(files@.take(files@.len() as int) =~= files@);
        assert forall|x: int, y: int|
            0 <= x < groups@.len() && 0 <= y < groups@.len() && x != y implies (
            #[trigger] groups@[x]).quant_type@ != (#[trigger] groups@[y]).quant_type@ by {
            assert(keys@[x]@ != keys@[y]@);
        }
    }
    let ghost all = groups@;
    let out = sort_groups(groups);
    proof {
        assert forall|i: int| 0 <= i < out@.len() implies group_matches(
            #[trigger] out@[i],
            es_all,
        ) by {
            let j = choose|j: int| 0 <= j < all.len() && (#[trigger] all[j]) == out@[i];
        }
        assert forall|m: int| 0 <= m < es_all.len() implies exists|i: int|
            0 <= i < out@.len() && (#[trigger] out@[i]).quant_type@ == (
            #[trigger] es_all[m]).quant_type by {
            let j = choose|j: int|
                0 <= j < keys@.len() && (#[trigger] keys@[j])@ == (#[trigger] es_all[m]).quant_type;
            let x = choose|x: int| 0 <= x < out@.len() && all[j] == (#[trigger] out@[x]);
        }
    }
    out
}

/// Sortedness by [`group_key`].
pub open spec fn sorted_by_key(v: Seq<QuantizationGroup>) -> bool {
    forall|x: int, y: int| 0 <= x < y < v.len() ==> group_key(#[trigger] v[x]) <= group_key(#[trigger] v[y])
}

/// Distinct quantization types.
pub open spec fn distinct_types(v: Seq<QuantizationGroup>) -> bool {
    forall|x: int, y: int|
        0 <= x < v.len() && 0 <= y < v.len() && x != y ==> (#[trigger] v[x]).quant_type@ != (
        #[trigger] v[y]).quant_type@
}

/// Inserts `g` after every group that does not sort after it.
fn insert_by_key(out: &mut Vec<QuantizationGroup>, g: QuantizationGroup) -> (p: usize)
    requires
        sorted_by_key(old(out)@),
    ensures
        p <= old(out)@.len(),
        final(out)@ == old(out)@.insert(p as int, g),
        sorted_by_key(final(out)@),
{
    let ghost old_out = out@;
    let gk_other = is_other_group(&g);
    let mut p: usize = 0;
    let mut stop: bool = false;
    while p < out.len() && !stop
        invariant
            p <= out@.len(),
            out@ == old_out,
            gk_other == (g.quant_type@ == name_other()),
            forall|x: int| 0 <= x < p ==> group_key(g) >= group_key(#[trigger] out@[x]),
            stop ==> p < out@.len() && group_key(g) < group_key(out@[p as int]),
        decreases out.len() - p + (if stop { 0int } else { 1int }),
    {
        let o_other = is_other_group(&out[p]);
        let before = (!gk_other && o_other) || (gk_other == o_other && g.total_size
            > out[p].total_size);
        if before {
            stop = true;
        } else {
            p += 1;
        }
    }
    out.insert(p, g);
    proof {
        let n = out@;
        assert(n == old_out.insert(p as int, g));
        assert forall|x: int, y: int| 0 <= x < y < n.len() implies group_key(#[trigger] n[x])
            <= group_key(#[trigger] n[y]) by {
            if x == p {
                assert(n[y] == old_out[y - 1]);
                if y - 1 > p {
                    assert(group_key(old_out[p as int]) <= group_key(old_out[y - 1]));
                }
            } else if y == p {
                assert(n[x] == old_out[x]);
            } else {
                let xi = if x < p { x } else { x - 1 };
                let yi = if y < p { y } else { y - 1 };
                assert(n[x] == old_out[xi]);
                assert(n[y] == old_out[yi]);
            }
        }
    }
    p
}

/// Every element of `v` is one of `all[0..n]`.
pub open spec fn from_prefix(v: Seq<QuantizationGroup>, all: Seq<QuantizationGroup>, n: int) -> bool {
    forall|x: int| 0 <= x < v.len() ==> exists|i: int| 0 <= i < n && all[i] == #[trigger] v[x]
}

/// Every one of `all[0..n]` is an element of `v`.
pub open spec fn covers_prefix(v: Seq<QuantizationGroup>, all: Seq<QuantizationGroup>, n: int) -> bool {
    forall|i: int| 0 <= i < n ==> exists|x: int| 0 <= x < v.len() && (#[trigger] all[i]) == v[x]
}

proof fn lemma_insert_cover_out(
    all: Seq<QuantizationGroup>,
    done: int,
    old_out: Seq<QuantizationGroup>,
    n: Seq<QuantizationGroup>,
    p: int,
)
    requires
        0 <= done < all.len(),
        old_out.len() == done,
        0 <= p <= done,
        n == old_out.insert(p, all[done]),
        from_prefix(old_out, all, done),
    ensures
        from_prefix(n, all, done + 1),
{
    assert forall|x: int| 0 <= x < n.len() implies exists|i: int|
        0 <= i < done + 1 && all[i] == #[trigger] n[x] by {
        if x < p {
            assert(n[x] == old_out[x]);
            let i = choose|i: int| 0 <= i < done && all[i] == #[trigger] old_out[x];
            assert(all[i] == n[x]);
        } else if x == p {
            assert(n[x] == all[done]);
        } else {
            assert(n[x] == old_out[x - 1]);
            let i = choose|i: int| 0 <= i < done && all[i] == #[trigger] old_out[x - 1];
            assert(all[i] == n[x]);
        }
    }
}

proof fn lemma_insert_cover_all(
    all: Seq<QuantizationGroup>,
    done: int,
    old_out: Seq<QuantizationGroup>,
    n: Seq<QuantizationGroup>,
    p: int,
)
    requires
        0 <= done < all.len(),
        old_out.len() == done,
        0 <= p <= done,
        n == old_out.insert(p, all[done]),
        covers_prefix(old_out, all, done),
    ensures
        covers_prefix(n, all, done + 1),
{
    assert forall|i: int| 0 <= i < done + 1 implies exists|x: int|
        0 <= x < n.len() && (#[trigger] all[i]) == n[x] by {
        if i == done {
            assert(n[p] == all[i]);
        } else {
            let x = choose|x: int| 0 <= x < old_out.len() && (#[trigger] all[i]) == old_out[x];
            if x < p {
                assert(n[x] == old_out[x]);
            } else {
                assert(n[x + 1] == old_out[x]);
            }
        }
    }
}

proof fn lemma_insert_distinct(
    all: Seq<QuantizationGroup>,
    done: int,
    old_out: Seq<QuantizationGroup>,
    n: Seq<QuantizationGroup>,
    p: int,
)
    requires
        0 <= done < all.len(),
        distinct_types(all),
        old_out.len() == done,
        0 <= p <= done,
        n == old_out.insert(p, all[done]),
        from_prefix(old_out, all, done),
        distinct_types(old_out),
    ensures
        distinct_types(n),
{
    assert forall|x: int, y: int|
        0 <= x < n.len() && 0 <= y < n.len() && x != y implies (#[trigger] n[x]).quant_type@
        != (#[trigger] n[y]).quant_type@ by {
        let xi = if x < p { x } else if x == p { -1 } else { x - 1 };
        let yi = if y < p { y } else if y == p { -1 } else { y - 1 };
        if x == p || y == p {
            let oi = if x == p { yi } else { xi };
            let i = choose|i: int| 0 <= i < done && all[i] == #[trigger] old_out[oi];
            if x == p {
                assert(n[y] == old_out[oi]);
            } else {
                assert(n[x] == old_out[oi]);
            }
            assert(all[i].quant_type@ != all[done].quant_type@);
        } else {
            assert(n[x] == old_out[xi]);
            assert(n[y] == old_out[yi]);
        }
    }
}

/// The groups reordered by [`group_key`] (a permutation of the input).
#[verifier::rlimit(50)]
fn sort_groups(groups: Vec<QuantizationGroup>) -> (out: Vec<QuantizationGroup>)
    requires
        distinct_types(groups@),
    ensures
        out@.len() == groups@.len(),
        from_prefix(out@, groups@, groups@.len() as int),
        covers_prefix(out@, groups@, groups@.len() as int),
        distinct_types(out@),
        sorted_by_key(out@),
{
    let ghost all = groups@;
    let mut rest = groups;
    let mut out: Vec<QuantizationGroup> = Vec::new();
    let mut done: usize = 0;
    while rest.len() > 0
        invariant
            distinct_types(all),
            done + rest@.len() == all.len(),
            rest@ == all.subrange(done as int, all.len() as int),
            out@.len() == done,
            from_prefix(out@, all, done as int),
            covers_prefix(out@, all, done as int),
            distinct_types(out@),
            sorted_by_key(out@),
        decreases rest@.len(),
    {
        let g = rest.remove(0);
        assert(g == all[done as int]);
        let ghost old_out = out@;
        let p = insert_by_key(&mut out, g);
        proof {
            lemma_insert_cover_out(all, done as int, old_out, out@, p as int);
            lemma_insert_cover_all(all, done as int, old_out, out@, p as int);
            lemma_insert_distinct(all, done as int, old_out, out@, p as int);
            assert(rest@ =~= all.subrange(done + 1, all.len() as int));
        }
        done = out.len();
    }
    out
}

fn is_other_group(g: &QuantizationGroup) -> (r: bool)
    ensures
        r == (g.quant_type@ == name_other()),
{
    let cs = to_chars(g.quant_type.as_str());
    let o = vec!['O', 'T', 'H', 'E', 'R'];
    assert(o@ =~= name_other());
    chars_eq(cs.as_slice(), o.as_slice())
}

/// The repository holds a GGUF-family file.
pub open spec fn has_gguf(files: Seq<RepoFile>) -> bool {
    exists|i: int| 0 <= i < files.len() && is_gguf((#[trigger] files[i]).rfilename@)
}

/// Does the model have GGUF files (`.gguf` or `.gguf.partNofM`)?
pub fn has_gguf_files(metadata: &ModelMetadata) -> (r: bool)
    ensures
        r == has_gguf(metadata.siblings@),
{
    let mut i: usize = 0;
    while i < metadata.siblings.len()
        invariant
            i <= metadata.siblings@.len(),
            forall|j: int| 0 <= j < i ==> !is_gguf((#[trigger] metadata.siblings@[j]).rfilename@),
        decreases metadata.siblings.len() - i,
    {
        let cs = to_chars(metadata.siblings[i].rfilename.as_str());
        if is_gguf_path_chars(cs.as_slice()) {
            return true;
        }
        i += 1;
    }
    false
}

// ---------------------------------------------------------------------------
// URLs
// ---------------------------------------------------------------------------

pub open spec fn default_endpoint() -> Seq<char> {
    "https://huggingface.co"@
}

/// Base URL of the Hub: the endpoint override when it is set and nonempty,
/// else the public Hub, without trailing slashes.
pub open spec fn api_base_of(endpoint: Option<Seq<char>>) -> Seq<char> {
    let e = match endpoint {
        Some(v) => if v.len() > 0 {
            v
        } else {
            default_endpoint()
        },
        None => default_endpoint(),
    };
    trim_end_all(e, seq!['/'])
}

/// Base URL for all Hub requests from the value of the endpoint override
/// variable (mirror support and local test servers).
pub fn api_base_from(endpoint: Option<String>) -> (r: String)
    ensures
        r@ == api_base_of(opt_str_view(endpoint)),
{
    let e = match endpoint {
        Some(v) => if v.as_str().is_empty() {
            String::from_str("https://huggingface.co")
        } else {
            v
        },
        None => String::from_str("https://huggingface.co"),
    };
    let cs = to_chars(e.as_str());
    let slash = vec!['/'];
    assert(slash@ =~= seq!['/']);
    let t = trim_end_matches(cs.as_slice(), slash.as_slice());
    from_chars(t.as_slice())
}

/// The `resolve` download URL of a repository file.
pub open spec fn url_of(base: Seq<char>, model_id: Seq<char>, filename: Seq<char>) -> Seq<char> {
    base + seq!['/'] + model_id + "/resolve/main/"@ + filename
}

/// Canonical `resolve` download URL for a repository file below the Hub
/// base URL `base`; the one builder every caller shares, so the URLs
/// always match.
pub fn resolve_url(base: &str, model_id: &str, filename: &str) -> (r: String)
    ensures
        r@ == url_of(base@, model_id@, filename@),
{
    let mut u = String::from_str(base);
    u.append("/");
    u.append(model_id);
    u.append("/resolve/main/");
    u.append(filename);
    proof {
        reveal_strlit("/");
    }
    u
}

} // verus!
