//! Laws on how models and files are picked, ordered and named.

use crate::cli::{available_of, dedup_by_name, first_named, pick_named, resolution, FileSpecView, Resolution, Selector};
use crate::laws::{law_dedup_names_distinct, law_search_results_filtered_and_ordered};
use crate::models::{ModelInfo, QuantizationGroup, RepoFile, SortDirection, SortField};
use crate::quant::{
    classify_quant, digits_value, dir_quant, first_dir_quant, five_at, five_groups, is_mmproj, looks_like_quant,
    multipart_numbers_ascii, parsed_u32, quant_from_dash_parts, quant_from_dotted, quant_of_filename, quant_stem,
    stem_of_path, digit_run, part_at, part_groups,
};
use crate::search::{model_before, search_results, sorted_here};
use crate::text::{all_digits, is_digit, lemma_split_nonempty, split_on, unicode_upper};
use crate::text::unicode_lower;
use crate::tree::lex_lt;
use vstd::prelude::*;

verus! {

/// Results sorted here by a count come in that count's order: by likes
/// for the likes field, by downloads for the downloads field (ascending,
/// the one direction the Hub leaves to the client); by lowercased id for
/// the name field, either way; by modification time (none first) for the
/// modified field.
pub proof fn law_search_results_follow_the_field(
    s: Seq<ModelInfo>,
    f: SortField,
    d: SortDirection,
    min_downloads: u64,
    min_likes: u64,
)
    ensures
        ({
            let r = search_results(s, f, d, min_downloads, min_likes);
            &&& f == SortField::Likes && d == SortDirection::Ascending ==> forall|i: int, j: int|
                0 <= i < j < r.len() ==> (#[trigger] r[i]).likes <= (#[trigger] r[j]).likes
            &&& f == SortField::Downloads && d == SortDirection::Ascending ==> forall|i: int, j: int|
                0 <= i < j < r.len() ==> (#[trigger] r[i]).downloads <= (#[trigger] r[j]).downloads
            &&& f == SortField::Name && d == SortDirection::Ascending ==> forall|i: int, j: int|
                0 <= i < j < r.len() ==> !lex_lt(unicode_lower((#[trigger] r[j]).id@), unicode_lower((#[trigger] r[i]).id@))
            &&& f == SortField::Name && d == SortDirection::Descending ==> forall|i: int, j: int|
                0 <= i < j < r.len() ==> !lex_lt(unicode_lower((#[trigger] r[i]).id@), unicode_lower((#[trigger] r[j]).id@))
            &&& f == SortField::Modified && d == SortDirection::Ascending ==> forall|i: int, j: int|
                0 <= i < j < r.len() ==> {
                    &&& (#[trigger] r[j]).last_modified is None ==> (#[trigger] r[i]).last_modified is None
                    &&& (r[i].last_modified is Some && r[j].last_modified is Some ==> !lex_lt(
                        r[j].last_modified.unwrap()@,
                        r[i].last_modified.unwrap()@,
                    ))
                }
        }),
{
    law_search_results_filtered_and_ordered(s, f, d, min_downloads, min_likes);
    let r = search_results(s, f, d, min_downloads, min_likes);
    if sorted_here(f, d) {
        assert forall|i: int, j: int| 0 <= i < j < r.len() implies !model_before(#[trigger] r[j], #[trigger] r[i], f, d) by {}
    }
}

/// Some listed file has the name.
pub open spec fn name_available(av: Seq<FileSpecView>, name: Seq<char>) -> bool {
    exists|i: int| 0 <= i < av.len() && (#[trigger] av[i]).filename == name
}

proof fn lemma_first_named_found(av: Seq<FileSpecView>, name: Seq<char>, from: int)
    requires
        0 <= from,
        exists|i: int| from <= i < av.len() && (#[trigger] av[i]).filename == name,
    ensures
        from <= first_named(av, name, from) < av.len(),
        av[first_named(av, name, from)].filename == name,
    decreases av.len() - from,
{
    if av[from].filename != name {
        let i = choose|i: int| from <= i < av.len() && (#[trigger] av[i]).filename == name;
        assert(i != from);
        lemma_first_named_found(av, name, from + 1);
    }
}

proof fn lemma_pick_named_all(av: Seq<FileSpecView>, nv: Seq<Seq<char>>, k: int)
    requires
        0 <= k <= nv.len(),
        forall|m: int| 0 <= m < nv.len() ==> name_available(av, #[trigger] nv[m]),
    ensures
        pick_named(av, nv, k) is Ok,
        pick_named(av, nv, k)->Ok_0.len() == k,
        forall|m: int|
            0 <= m < k ==> (#[trigger] pick_named(av, nv, k)->Ok_0[m]).filename == nv[m] && av.contains(
                pick_named(av, nv, k)->Ok_0[m],
            ),
    decreases k,
{
    if k > 0 {
        lemma_pick_named_all(av, nv, k - 1);
        assert(name_available(av, nv[k - 1]));
        lemma_first_named_found(av, nv[k - 1], 0);
        let prev = pick_named(av, nv, k - 1)->Ok_0;
        let i = first_named(av, nv[k - 1], 0);
        let v = prev.push(av[i]);
        assert(pick_named(av, nv, k) == Ok::<Seq<FileSpecView>, Seq<char>>(v));
        assert forall|m: int| 0 <= m < k implies (#[trigger] v[m]).filename == nv[m] && av.contains(v[m]) by {
            if m < k - 1 {
                assert(v[m] == prev[m]);
            } else {
                assert(v[m] == av[i]);
            }
        }
    }
}

proof fn lemma_dedup_keeps_names(v: Seq<FileSpecView>)
    ensures
        forall|m: int|
            0 <= m < v.len() ==> exists|j: int|
                0 <= j < dedup_by_name(v).len() && (#[trigger] dedup_by_name(v)[j]).filename == (#[trigger] v[m]).filename,
        forall|j: int| 0 <= j < dedup_by_name(v).len() ==> v.contains(#[trigger] dedup_by_name(v)[j]),
    decreases v.len(),
{
    if v.len() > 0 {
        let p = v.drop_last();
        lemma_dedup_keeps_names(p);
        let d = dedup_by_name(p);
        let r = dedup_by_name(v);
        let x = v.last();
        if exists|i: int| 0 <= i < d.len() && (#[trigger] d[i]).filename == x.filename {
            assert(r == d);
            assert forall|m: int| 0 <= m < v.len() implies exists|j: int|
                0 <= j < r.len() && (#[trigger] r[j]).filename == (#[trigger] v[m]).filename by {
                if m < v.len() - 1 {
                    assert(v[m] == p[m]);
                } else {
                    let i = choose|i: int| 0 <= i < d.len() && (#[trigger] d[i]).filename == x.filename;
                    assert(r[i].filename == v[m].filename);
                }
            }
            assert forall|j: int| 0 <= j < r.len() implies v.contains(#[trigger] r[j]) by {
                let k = choose|k: int| 0 <= k < p.len() && p[k] == d[j];
                assert(v[k] == p[k]);
            }
        } else {
            assert(r == d.push(x));
            assert forall|m: int| 0 <= m < v.len() implies exists|j: int|
                0 <= j < r.len() && (#[trigger] r[j]).filename == (#[trigger] v[m]).filename by {
                if m < v.len() - 1 {
                    assert(v[m] == p[m]);
                    let j = choose|j: int| 0 <= j < d.len() && (#[trigger] d[j]).filename == (#[trigger] p[m]).filename;
                    assert(r[j] == d[j]);
                } else {
                    assert(r[d.len() as int] == x);
                }
            }
            assert forall|j: int| 0 <= j < r.len() implies v.contains(#[trigger] r[j]) by {
                if j < d.len() {
                    assert(r[j] == d[j]);
                    let k = choose|k: int| 0 <= k < p.len() && p[k] == d[j];
                    assert(v[k] == p[k]);
                } else {
                    assert(r[j] == v[v.len() - 1]);
                }
            }
        }
    }
}

proof fn lemma_dedup_first(v: Seq<FileSpecView>) -> (idx: Seq<int>)
    ensures
        idx.len() == dedup_by_name(v).len(),
        forall|j: int|
            0 <= j < idx.len() ==> 0 <= #[trigger] idx[j] < v.len() && dedup_by_name(v)[j] == v[idx[j]] && forall|m: int|
                0 <= m < idx[j] ==> (#[trigger] v[m]).filename != dedup_by_name(v)[j].filename,
        forall|a: int, b: int| 0 <= a < b < idx.len() ==> #[trigger] idx[a] < #[trigger] idx[b],
    decreases v.len(),
{
    if v.len() == 0 {
        Seq::<int>::empty()
    } else {
        let p = v.drop_last();
        let x = v.last();
        let prev = lemma_dedup_first(p);
        lemma_dedup_keeps_names(p);
        let d = dedup_by_name(p);
        if exists|i: int| 0 <= i < d.len() && (#[trigger] d[i]).filename == x.filename {
            assert forall|j: int| 0 <= j < prev.len() implies 0 <= #[trigger] prev[j] < v.len() && dedup_by_name(v)[j]
                == v[prev[j]] && forall|m: int| 0 <= m < prev[j] ==> (#[trigger] v[m]).filename != dedup_by_name(v)[j].filename by {
                assert(v[prev[j]] == p[prev[j]]);
                assert forall|m: int| 0 <= m < prev[j] implies (#[trigger] v[m]).filename != dedup_by_name(v)[j].filename by {
                    assert(v[m] == p[m]);
                }
            }
            prev
        } else {
            let idx = prev.push(p.len() as int);
            let r = dedup_by_name(v);
            assert(r == d.push(x));
            assert forall|j: int| 0 <= j < idx.len() implies 0 <= #[trigger] idx[j] < v.len() && r[j] == v[idx[j]]
                && forall|m: int| 0 <= m < idx[j] ==> (#[trigger] v[m]).filename != r[j].filename by {
                if j < prev.len() {
                    assert(idx[j] == prev[j]);
                    assert(v[prev[j]] == p[prev[j]]);
                    assert forall|m: int| 0 <= m < idx[j] implies (#[trigger] v[m]).filename != r[j].filename by {
                        assert(v[m] == p[m]);
                    }
                } else {
                    assert(r[j] == x);
                    assert forall|m: int| 0 <= m < idx[j] implies (#[trigger] v[m]).filename != r[j].filename by {
                        assert(v[m] == p[m]);
                        if p[m].filename == x.filename {
                            let i = choose|i: int|
                                0 <= i < d.len() && (#[trigger] d[i]).filename == (#[trigger] p[m]).filename;
                        }
                    }
                }
            }
            assert forall|a: int, b: int| 0 <= a < b < idx.len() implies #[trigger] idx[a] < #[trigger] idx[b] by {
                if b < prev.len() {
                    assert(idx[a] == prev[a] && idx[b] == prev[b]);
                } else {
                    assert(idx[a] == prev[a]);
                }
            }
            idx
        }
    }
}

proof fn lemma_named_order(p: Seq<FileSpecView>, nv: Seq<Seq<char>>)
    requires
        p.len() == nv.len(),
        forall|m: int| 0 <= m < p.len() ==> (#[trigger] p[m]).filename == nv[m],
    ensures
        forall|a: int, b: int, k: int|
            0 <= a < b < dedup_by_name(p).len() && 0 <= k < nv.len() && #[trigger] nv[k] == (#[trigger] dedup_by_name(
                p,
            )[b]).filename ==> exists|m: int| 0 <= m < k && #[trigger] nv[m] == (#[trigger] dedup_by_name(p)[a]).filename,
{
    let v = dedup_by_name(p);
    let idx = lemma_dedup_first(p);
    assert forall|a: int, b: int, k: int|
        0 <= a < b < v.len() && 0 <= k < nv.len() && #[trigger] nv[k] == (#[trigger] v[b]).filename implies exists|m: int|
        0 <= m < k && #[trigger] nv[m] == (#[trigger] v[a]).filename by {
        assert(idx[a] < idx[b]);
        if k < idx[b] {
            assert(p[k].filename != v[b].filename);
        }
        let m = idx[a];
        assert(p[m].filename == nv[m]);
    }
}

/// With `--file` names that are all listed, the selection holds a file of
/// every requested name, and only listed files that some name requested,
/// each name once, in the order in which the names were first requested.
/// Some file of `v` has the name.
#[verifier::opaque]
pub open spec fn has_file_named(v: Seq<FileSpecView>, name: Seq<char>) -> bool {
    exists|j: int| 0 <= j < v.len() && (#[trigger] v[j]).filename == name
}

/// The name is among `nv[0..k]`.
#[verifier::opaque]
pub open spec fn requested_before(nv: Seq<Seq<char>>, name: Seq<char>, k: int) -> bool {
    exists|m: int| 0 <= m < k && #[trigger] nv[m] == name
}

/// The selection for the names `nv`: a file of every name, only listed
/// files that some name requested, each name once, and a file before
/// another only when its name was requested before every request of the
/// other's.
pub open spec fn selects_names(av: Seq<FileSpecView>, nv: Seq<Seq<char>>, v: Seq<FileSpecView>) -> bool {
    &&& forall|k: int| 0 <= k < nv.len() ==> has_file_named(v, #[trigger] nv[k])
    &&& forall|j: int| 0 <= j < v.len() ==> av.contains(#[trigger] v[j]) && requested_before(nv, v[j].filename, nv.len() as int)
    &&& forall|a: int, b: int| 0 <= a < b < v.len() ==> (#[trigger] v[a]).filename != (#[trigger] v[b]).filename
    &&& forall|a: int, b: int, k: int|
        0 <= a < b < v.len() && 0 <= k < nv.len() && #[trigger] nv[k] == (#[trigger] v[b]).filename ==> requested_before(
            nv,
            (#[trigger] v[a]).filename,
            k,
        )
}

#[verifier::spinoff_prover]
proof fn lemma_named_core(av: Seq<FileSpecView>, nv: Seq<Seq<char>>)
    requires
        forall|m: int| 0 <= m < nv.len() ==> name_available(av, #[trigger] nv[m]),
    ensures
        pick_named(av, nv, nv.len() as int) is Ok,
        selects_names(av, nv, dedup_by_name(pick_named(av, nv, nv.len() as int)->Ok_0)),
{
    lemma_pick_named_all(av, nv, nv.len() as int);
    let p = pick_named(av, nv, nv.len() as int)->Ok_0;
    let v = dedup_by_name(p);
    assert forall|k: int| 0 <= k < nv.len() implies has_file_named(v, #[trigger] nv[k]) by {
        reveal(has_file_named);
        lemma_dedup_keeps_names(p);
        assert(p[k].filename == nv[k]);
        let j = choose|j: int| 0 <= j < v.len() && (#[trigger] v[j]).filename == (#[trigger] p[k]).filename;
        assert(v[j].filename == nv[k]);
    }
    assert forall|j: int| 0 <= j < v.len() implies av.contains(#[trigger] v[j]) && requested_before(
        nv,
        v[j].filename,
        nv.len() as int,
    ) by {
        reveal(requested_before);
        lemma_dedup_keeps_names(p);
        let m = choose|m: int| 0 <= m < p.len() && p[m] == v[j];
        assert(p[m].filename == nv[m]);
    }
    law_dedup_names_distinct(p);
    assert forall|a: int, b: int, k: int|
        0 <= a < b < v.len() && 0 <= k < nv.len() && #[trigger] nv[k] == (#[trigger] v[b]).filename implies requested_before(
        nv,
        (#[trigger] v[a]).filename,
        k,
    ) by {
        reveal(requested_before);
        lemma_named_order(p, nv);
        let m = choose|m: int| 0 <= m < k && #[trigger] nv[m] == (#[trigger] v[a]).filename;
    }
}

/// With `--file` names that are all listed, the selection holds a file of
/// every requested name, and only listed files that some name requested,
/// each name once, in the order in which the names were first requested
/// (see [`selects_names`]).
pub proof fn law_named_files_all_selected(files: Seq<RepoFile>, quants: Seq<QuantizationGroup>, names: Vec<String>)
    requires
        forall|k: int| 0 <= k < names@.len() ==> name_available(available_of(files), (#[trigger] names@[k])@),
    ensures
        resolution(files, quants, Selector::Files(names)) is Files,
        selects_names(
            available_of(files),
            names@.map_values(|n: String| n@),
            resolution(files, quants, Selector::Files(names))->Files_0,
        ),
{
    let av = available_of(files);
    let nv = names@.map_values(|n: String| n@);
    assert forall|m: int| 0 <= m < nv.len() implies name_available(av, #[trigger] nv[m]) by {
        assert(nv[m] == names@[m]@);
    }
    lemma_named_core(av, nv);
    let v = dedup_by_name(pick_named(av, nv, nv.len() as int)->Ok_0);
    assert(resolution(files, quants, Selector::Files(names)) == Resolution::Files(v));
}

proof fn lemma_split_without(s: Seq<char>, c: char)
    requires
        !s.contains(c),
    ensures
        split_on(s, c) == seq![s],
    decreases s.len(),
{
    if s.len() == 0 {
        assert(s =~= Seq::<char>::empty());
        assert(seq![Seq::<char>::empty()] =~= seq![s]);
    } else {
        let t = s.drop_last();
        assert(!t.contains(c)) by {
            if t.contains(c) {
                let i = choose|i: int| 0 <= i < t.len() && t[i] == c;
                assert(s[i] == c);
            }
        }
        lemma_split_without(t, c);
        assert(s[s.len() - 1] != c);
        assert(t.push(s.last()) =~= s);
        assert(seq![t].update(0, seq![t][0].push(s.last())) =~= seq![s]);
    }
}

/// A file name without `.` in its stem takes its quantization type from
/// the last `-`-separated part: the part itself, uppercased, when it is a
/// quantization token; else, when it holds `_`, its text before the first
/// `_`, uppercased, when that is a token (`MXFP4_MOE` gives `MXFP4`).
pub proof fn law_last_dash_part_names_the_quant(s: Seq<char>)
    requires
        !quant_stem(s).contains('.'),
    ensures
        ({
            let p = split_on(quant_stem(s), '-').last();
            let t = split_on(p, '_')[0];
            &&& looks_like_quant(p) ==> quant_of_filename(s) == Some(unicode_upper(p))
            &&& !looks_like_quant(p) && p.contains('_') && looks_like_quant(t) ==> quant_of_filename(s) == Some(
                unicode_upper(t),
            )
        }),
{
    let name = quant_stem(s);
    lemma_split_without(name, '.');
    lemma_split_nonempty(name, '-');
    let parts = split_on(name, '-');
    assert(quant_from_dotted(name) is None);
    assert(parts[parts.len() - 1] == parts.last());
}

proof fn lemma_first_dir_from(comps: Seq<Seq<char>>, i: int, k: int)
    requires
        0 <= i <= k,
        k + 1 < comps.len(),
        dir_quant(comps[k]) is Some,
        forall|j: int| 0 <= j < k ==> dir_quant(#[trigger] comps[j]) is None,
    ensures
        first_dir_quant(comps, i) == dir_quant(comps[k]),
    decreases k - i,
{
    if i < k {
        assert(dir_quant(comps[i]) is None);
        lemma_first_dir_from(comps, i + 1, k);
    }
}

/// A GGUF path whose file name names no quantization (and is no
/// projector) is grouped under the first ancestor directory, at any depth,
/// whose name is a quantization type.
pub proof fn law_first_quant_directory_names_the_group(path: Seq<char>, k: int)
    requires
        !is_mmproj(stem_of_path(path)),
        quant_of_filename(stem_of_path(path)) is None,
        0 <= k,
        k + 1 < split_on(path, '/').len(),
        dir_quant(split_on(path, '/')[k]) is Some,
        forall|j: int| 0 <= j < k ==> dir_quant(#[trigger] split_on(path, '/')[j]) is None,
    ensures
        classify_quant(path) == dir_quant(split_on(path, '/')[k]).unwrap(),
{
    lemma_first_dir_from(split_on(path, '/'), 0, k);
}

/// 10 to the `n`.
pub open spec fn pow10(n: nat) -> nat
    decreases n,
{
    if n == 0 {
        1
    } else {
        10 * pow10((n - 1) as nat)
    }
}

proof fn lemma_digits_below(s: Seq<char>)
    requires
        all_digits(s),
    ensures
        digits_value(s) < pow10(s.len()),
    decreases s.len(),
{
    if s.len() > 0 {
        let t = s.drop_last();
        assert(all_digits(t)) by {
            assert forall|i: int| 0 <= i < t.len() implies is_digit(#[trigger] t[i]) by {
                assert(t[i] == s[i]);
            }
        }
        lemma_digits_below(t);
        assert(is_digit(s[s.len() - 1]));
        let c = s.last();
        assert((c as nat) - ('0' as nat) <= 9);
    }
}

/// A name holding `NNNNN-of-MMMMM` (its leftmost such run) is part `N` of
/// `M` whenever `M` is above one and `N` at most `M`: the last part of a
/// set is recognized like the others.
pub proof fn law_five_digit_multipart_recognized(name: Seq<char>, i: int)
    requires
        five_at(name, i),
        forall|j: int| 0 <= j < i ==> !five_at(name, j),
        digits_value(name.subrange(i + 9, i + 14)) > 1,
        digits_value(name.subrange(i, i + 5)) <= digits_value(name.subrange(i + 9, i + 14)),
    ensures
        multipart_numbers_ascii(name) == Some(
            (digits_value(name.subrange(i, i + 5)) as u32, digits_value(name.subrange(i + 9, i + 14)) as u32),
        ),
{
    let a = name.subrange(i, i + 5);
    let b = name.subrange(i + 9, i + 14);
    let c = choose|c: int| five_at(name, c) && forall|j: int| 0 <= j < c ==> !five_at(name, j);
    assert(five_at(name, c) && forall|j: int| 0 <= j < c ==> !five_at(name, j));
    if c < i {
        assert(!five_at(name, c));
    }
    if c > i {
        assert(!five_at(name, i));
    }
    assert(c == i);
    assert(five_groups(name) == Some((Some(a), Some(b))));
    lemma_digits_below(a);
    lemma_digits_below(b);
    assert(pow10(5) == 100000) by {
        reveal_with_fuel(pow10, 6);
    }
    assert(a[0] != '+') by {
        assert(is_digit(a[0]));
    }
    assert(b[0] != '+') by {
        assert(is_digit(b[0]));
    }
    assert(parsed_u32(a) == Some(digits_value(a) as u32));
    assert(parsed_u32(b) == Some(digits_value(b) as u32));
}

/// What one `-`-separated part of a file name says of the quantization:
/// the part uppercased when it is a token; else, when it holds `_`, its
/// text before the first `_` uppercased when that is a token.
pub open spec fn dash_part_quant(p: Seq<char>) -> Option<Seq<char>> {
    let t = split_on(p, '_')[0];
    if looks_like_quant(p) {
        Some(unicode_upper(p))
    } else if p.contains('_') && looks_like_quant(t) {
        Some(unicode_upper(t))
    } else {
        None
    }
}

#[verifier::spinoff_prover]
#[verifier::rlimit(50)]
proof fn lemma_dash_rightmost(parts: Seq<Seq<char>>, n: int)
    requires
        0 <= n <= parts.len(),
    ensures
        (forall|k: int| 0 <= k < n ==> dash_part_quant(#[trigger] parts[k]) is None) ==> quant_from_dash_parts(parts, n)
            is None,
        forall|k: int|
            0 <= k < n && dash_part_quant(#[trigger] parts[k]) is Some && (forall|j: int|
                k < j < n ==> dash_part_quant(#[trigger] parts[j]) is None) ==> quant_from_dash_parts(parts, n)
                == dash_part_quant(parts[k]),
    decreases n,
{
    if n > 0 {
        lemma_dash_rightmost(parts, n - 1);
        let last = parts[n - 1];
        assert(dash_part_quant(last) is Some ==> quant_from_dash_parts(parts, n) == dash_part_quant(last));
        assert(dash_part_quant(last) is None ==> quant_from_dash_parts(parts, n) == quant_from_dash_parts(parts, n - 1));
        assert forall|k: int|
            0 <= k < n && dash_part_quant(#[trigger] parts[k]) is Some && (forall|j: int|
                k < j < n ==> dash_part_quant(#[trigger] parts[j]) is None) implies quant_from_dash_parts(parts, n)
            == dash_part_quant(parts[k]) by {
            if k < n - 1 {
                assert(dash_part_quant(parts[n - 1]) is None);
            }
        }
    }
}

/// A file name without `.` in its stem takes its quantization type from
/// the rightmost `-`-separated part that names one (see
/// [`dash_part_quant`]), and has none when no part names one.
pub proof fn law_rightmost_dash_part_names_the_quant(s: Seq<char>)
    requires
        !quant_stem(s).contains('.'),
    ensures
        ({
            let parts = split_on(quant_stem(s), '-');
            &&& (forall|k: int| 0 <= k < parts.len() ==> dash_part_quant(#[trigger] parts[k]) is None) ==> quant_of_filename(
                s,
            ) is None
            &&& forall|k: int|
                0 <= k < parts.len() && dash_part_quant(#[trigger] parts[k]) is Some && (forall|j: int|
                    k < j < parts.len() ==> dash_part_quant(#[trigger] parts[j]) is None) ==> quant_of_filename(s)
                    == dash_part_quant(parts[k])
        }),
{
    let name = quant_stem(s);
    lemma_split_without(name, '.');
    let parts = split_on(name, '-');
    assert(quant_from_dotted(name) is None);
    lemma_dash_rightmost(parts, parts.len() as int);
}

proof fn lemma_no_dir_quant(comps: Seq<Seq<char>>, i: int)
    requires
        0 <= i,
        forall|j: int| 0 <= j < comps.len() - 1 ==> dir_quant(#[trigger] comps[j]) is None,
    ensures
        first_dir_quant(comps, i) is None,
    decreases comps.len() - i,
{
    if i + 1 < comps.len() {
        assert(dir_quant(comps[i]) is None);
        lemma_no_dir_quant(comps, i + 1);
    }
}

/// A GGUF path with no quantization in its file name (and no projector)
/// and no quantization-named ancestor directory is grouped as `OTHER`.
pub proof fn law_unnamed_file_is_other(path: Seq<char>)
    requires
        !is_mmproj(stem_of_path(path)),
        quant_of_filename(stem_of_path(path)) is None,
        forall|j: int| 0 <= j < split_on(path, '/').len() - 1 ==> dir_quant(#[trigger] split_on(path, '/')[j]) is None,
    ensures
        classify_quant(path) == seq!['O', 'T', 'H', 'E', 'R'],
{
    lemma_no_dir_quant(split_on(path, '/'), 0);
}

proof fn lemma_digit_run_digits(s: Seq<char>, k: int)
    requires
        0 <= k <= s.len(),
    ensures
        k + digit_run(s, k) <= s.len(),
        all_digits(s.subrange(k, k + digit_run(s, k))),
    decreases s.len() - k,
{
    if 0 <= k < s.len() && is_digit(s[k]) {
        lemma_digit_run_digits(s, k + 1);
        let n = digit_run(s, k);
        assert forall|m: int| 0 <= m < n implies is_digit(#[trigger] s.subrange(k, k + n)[m]) by {
            if m > 0 {
                assert(s.subrange(k, k + n)[m] == s.subrange(k + 1, k + 1 + digit_run(s, k + 1))[m - 1]);
            }
        }
    }
}

/// A name without any `NNNNN-of-MMMMM` whose leftmost `partNofM` has `M`
/// above one and `N` at most `M` is part `N` of `M`.
pub proof fn law_part_of_multipart_recognized(name: Seq<char>, i: int)
    requires
        forall|j: int| !five_at(name, j),
        part_at(name, i),
        forall|j: int| 0 <= j < i ==> !part_at(name, j),
        ({
            let o = i + 4 + digit_run(name, i + 4);
            let total = digits_value(name.subrange(o + 2, o + 2 + digit_run(name, o + 2)));
            &&& total <= u32::MAX
            &&& total > 1
            &&& digits_value(name.subrange(i + 4, o)) <= total
        }),
    ensures
        ({
            let o = i + 4 + digit_run(name, i + 4);
            multipart_numbers_ascii(name) == Some(
                (
                    digits_value(name.subrange(i + 4, o)) as u32,
                    digits_value(name.subrange(o + 2, o + 2 + digit_run(name, o + 2))) as u32,
                ),
            )
        }),
{
    let o = i + 4 + digit_run(name, i + 4);
    let a = name.subrange(i + 4, o);
    let b = name.subrange(o + 2, o + 2 + digit_run(name, o + 2));
    assert(five_groups(name) is None);
    let c = choose|c: int| part_at(name, c) && forall|j: int| 0 <= j < c ==> !part_at(name, j);
    assert(part_at(name, c) && forall|j: int| 0 <= j < c ==> !part_at(name, j));
    if c < i {
        assert(!part_at(name, c));
    }
    if c > i {
        assert(!part_at(name, i));
    }
    assert(c == i);
    assert(part_groups(name) == Some((Some(a), Some(b))));
    lemma_digit_run_digits(name, i + 4);
    lemma_digit_run_digits(name, o + 2);
    assert(a[0] != '+') by {
        assert(is_digit(a[0]));
    }
    assert(b[0] != '+') by {
        assert(is_digit(b[0]));
    }
    assert(parsed_u32(a) == Some(digits_value(a) as u32));
    assert(parsed_u32(b) == Some(digits_value(b) as u32));
}

} // verus!
