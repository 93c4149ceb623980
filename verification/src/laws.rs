//! Properties that hold across calls and for every input.

use crate::api::{classification, entries_of_type, gguf_entries, group_matches, has_gguf, is_grouped, url_of, QEntry};
use crate::cli::{dedup_by_name, FileSpecView};
use crate::engine::{has_url, with_pending, MetaView, PendingFile};
use crate::download::{chunk_count, chunk_span, download_target, sanitized_component, sanitized_parts, strip_leading_ws, strip_trailing_ws, trim_ws};
use crate::text::{has_suffix, lemma_split_nonempty, split_on, trim_end_all};
use crate::models::{QuantizationGroup, RepoFile};
use crate::cli::FileSpec;
use crate::command::{entry_for, pendings_view, run_transition, RunAction, RunEvent, RunState};
use crate::quant::opt_str_view;
use crate::models::{sat_add, sat_sub};
use crate::quant::{is_gguf, multipart_numbers};
use crate::render::{bar_filled, bar_text, row_layout};
use crate::panels::{active_preset_of, toolbar_view};
use crate::search::{in_order, kept_models, lemma_kept_models, lemma_sorted_models, meets_minimums, search_results, sorted_here, sorted_models};
use crate::tree::{
    lemma_sort_tree_total, vtotal, vtotal_all, built, lemma_sort_trees_index, vsized, vsized_all, child_path, new_child, child_named, flat, flat_seq, flipped, insert_sorted, inserted, key_lt, lex_lt, sort_tree, sort_trees,
    stable_sort, toggle_node, toggle_seq, NodeView,
};
use crate::text::unicode_lower;
use crate::models::{AppOptions, FilterPreset, FocusedPane, ModelDisplayMode, ModelInfo, SortDirection, SortField};
use crate::ui::{
    download_steps, focus_toggled, like_steps, next_index, option_step_fits, option_stepped, preset_name, prev_index, step_index_from,
    stepped, with_preset, App,
};
use vstd::prelude::*;

verus! {

/// Adding files to the download queue and removing the same files again
/// restores its counts (when the additions did not saturate).
pub proof fn law_queue_add_then_remove(size: usize, bytes: u64, count: usize, added: u64)
    requires
        size + count <= usize::MAX,
        bytes + added <= u64::MAX,
    ensures
        sat_sub(sat_add(size as int, count as int, usize::MAX as int), count as int) == size,
        sat_sub(sat_add(bytes as int, added as int, u64::MAX as int), added as int) == bytes,
{
}

/// A parsed multipart name always has more than one part and a part
/// number within the count.
pub proof fn law_multipart_numbers_in_range(name: Seq<char>)
    ensures
        multipart_numbers(name) matches Some((c, t)) ==> t > 1 && c <= t,
{
}

/// The chunks of a download tile the file: the first starts at byte 0,
/// each next one starts right after the previous one ends, and the last
/// ends at the file's last byte.
pub proof fn law_chunks_tile_file(total: nat, chunk: nat)
    requires
        total > 0,
        chunk > 0,
        total <= u64::MAX,
    ensures
        chunk_span(total, chunk, 0).0 == 0,
        forall|i: nat| #![trigger chunk_span(total, chunk, i)]
            i + 1 < chunk_count(total, chunk) ==> chunk_span(total, chunk, i).1 + 1 == chunk_span(total, chunk, i + 1).0,
        chunk_span(total, chunk, (chunk_count(total, chunk) - 1) as nat).1 == total - 1,
{
    let n = chunk_count(total, chunk);
    assert(n >= 1) by (nonlinear_arith)
        requires
            n == ((total + chunk - 1) as nat) / chunk,
            total > 0,
            chunk > 0,
    ;
    assert forall|i: nat| #![trigger chunk_span(total, chunk, i)]
        i + 1 < n implies chunk_span(total, chunk, i).1 + 1 == chunk_span(total, chunk, i + 1).0 by {
        assert((i + 1) * chunk <= total - 1) by (nonlinear_arith)
            requires
                i + 1 < n,
                n == ((total + chunk - 1) as nat) / chunk,
                chunk > 0,
        ;
        assert((i + 1) * chunk == i * chunk + chunk) by (nonlinear_arith);
        assert(i * chunk + chunk <= u64::MAX);
    }
    let last = (n - 1) as nat;
    assert(last * chunk <= total - 1 && last * chunk + chunk - 1 >= total - 1) by (nonlinear_arith)
        requires
            last + 1 == n,
            n == ((total + chunk - 1) as nat) / chunk,
            chunk > 0,
            total > 0,
    ;
}

/// A file list reduced to one entry per name holds no name twice.
pub proof fn law_dedup_names_distinct(v: Seq<FileSpecView>)
    ensures
        forall|i: int, j: int|
            0 <= i < j < dedup_by_name(v).len() ==> (#[trigger] dedup_by_name(v)[i]).filename != (
            #[trigger] dedup_by_name(v)[j]).filename,
    decreases v.len(),
{
    if v.len() > 0 {
        law_dedup_names_distinct(v.drop_last());
        let d = dedup_by_name(v.drop_last());
        if !(exists|i: int| 0 <= i < d.len() && (#[trigger] d[i]).filename == v.last().filename) {
            let e = d.push(v.last());
            assert forall|i: int, j: int| 0 <= i < j < e.len() implies (#[trigger] e[i]).filename != (
                #[trigger] e[j]).filename by {
                if j == e.len() - 1 {
                    assert(e[i] == d[i]);
                } else {
                    assert(e[i] == d[i] && e[j] == d[j]);
                }
            }
        }
    }
}

/// Toggling the same path twice gives the tree back unchanged (flipping a
/// directory's expansion changes neither paths nor which nodes are
/// directories, so the second toggle finds the same node).
pub proof fn law_toggle_twice_restores(v: NodeView, t: Seq<char>)
    ensures
        toggle_node(toggle_node(v, t).0, t) == (v, toggle_node(v, t).1),
    decreases v,
{
    law_toggle_seq_twice(v.children, t);
}

/// [`law_toggle_twice_restores`] for a list of siblings.
pub proof fn law_toggle_seq_twice(s: Seq<NodeView>, t: Seq<char>)
    ensures
        toggle_seq(toggle_seq(s, t).0, t) == (s, toggle_seq(s, t).1),
    decreases s,
{
    if s.len() > 0 {
        let c = s[0];
        if c.path == t {
            let r = s.update(0, flipped(c));
            assert(r[0] == flipped(c));
            assert(flipped(flipped(c)) == c);
            assert(r.update(0, flipped(r[0])) =~= s);
        } else if c.is_dir && toggle_node(c, t).1 {
            law_toggle_twice_restores(c, t);
            let c2 = toggle_node(c, t).0;
            let r = s.update(0, c2);
            assert(r[0] == c2);
            assert(c2.path == c.path && c2.is_dir == c.is_dir);
            assert(r.update(0, c) =~= s);
        } else {
            law_toggle_seq_twice(s.drop_first(), t);
            let rest = toggle_seq(s.drop_first(), t);
            let r = seq![c] + rest.0;
            assert(r[0] == c);
            assert(r.drop_first() =~= rest.0);
            assert(seq![c] + s.drop_first() =~= s);
        }
    }
}

/// Toggling a path that no node has changes nothing.
pub proof fn law_toggle_miss_changes_nothing(v: NodeView, t: Seq<char>)
    ensures
        !toggle_node(v, t).1 ==> toggle_node(v, t).0 == v,
    decreases v,
{
    law_toggle_seq_miss(v.children, t);
}

/// [`law_toggle_miss_changes_nothing`] for a list of siblings.
pub proof fn law_toggle_seq_miss(s: Seq<NodeView>, t: Seq<char>)
    ensures
        !toggle_seq(s, t).1 ==> toggle_seq(s, t).0 == s,
    decreases s,
{
    if s.len() > 0 {
        law_toggle_miss_changes_nothing(s[0], t);
        law_toggle_seq_miss(s.drop_first(), t);
        if !toggle_seq(s, t).1 {
            assert(seq![s[0]] + s.drop_first() =~= s);
        }
    }
}

/// With no expanded directory among its children, a node's display rows
/// are exactly its children.
pub proof fn law_collapsed_rows_are_children(v: NodeView)
    requires
        forall|i: int| 0 <= i < v.children.len() ==> !((#[trigger] v.children[i]).is_dir && v.children[i].expanded),
    ensures
        flat(v) == v.children,
{
    lemma_flat_seq_collapsed(v.children);
}

proof fn lemma_flat_seq_collapsed(s: Seq<NodeView>)
    requires
        forall|i: int| 0 <= i < s.len() ==> !((#[trigger] s[i]).is_dir && s[i].expanded),
    ensures
        flat_seq(s) == s,
    decreases s.len(),
{
    if s.len() > 0 {
        let p = s.drop_last();
        assert forall|i: int| 0 <= i < p.len() implies !((#[trigger] p[i]).is_dir && p[i].expanded) by {
            assert(p[i] == s[i]);
        }
        lemma_flat_seq_collapsed(p);
        assert(!(s[s.len() - 1].is_dir && s[s.len() - 1].expanded));
        assert(p + seq![s.last()] + Seq::<NodeView>::empty() =~= s);
    }
}

/// `t` is a contiguous piece of `c`.
pub open spec fn is_piece(t: Seq<char>, c: Seq<char>) -> bool {
    exists|a: int, b: int| 0 <= a <= b <= c.len() && t == c.subrange(a, b)
}

proof fn lemma_piece_trans(u: Seq<char>, t: Seq<char>, c: Seq<char>)
    requires
        is_piece(u, t),
        is_piece(t, c),
    ensures
        is_piece(u, c),
{
    let (a, b) = choose|a: int, b: int| 0 <= a <= b <= t.len() && u == t.subrange(a, b);
    let (x, y) = choose|x: int, y: int| 0 <= x <= y <= c.len() && t == c.subrange(x, y);
    assert(u =~= c.subrange(x + a, x + b));
}

proof fn lemma_piece_contains(t: Seq<char>, c: Seq<char>, ch: char)
    requires
        is_piece(t, c),
        t.contains(ch),
    ensures
        c.contains(ch),
{
    let (a, b) = choose|a: int, b: int| 0 <= a <= b <= c.len() && t == c.subrange(a, b);
    let i = choose|i: int| 0 <= i < t.len() && t[i] == ch;
    assert(c[a + i] == ch);
}

proof fn lemma_strip_leading_piece(s: Seq<char>)
    ensures
        is_piece(strip_leading_ws(s), s),
    decreases s.len(),
{
    if s.len() > 0 && crate::download::is_unicode_ws(s[0]) {
        lemma_strip_leading_piece(s.drop_first());
        assert(is_piece(s.drop_first(), s)) by {
            assert(s.drop_first() == s.subrange(1, s.len() as int));
        }
        lemma_piece_trans(strip_leading_ws(s.drop_first()), s.drop_first(), s);
    } else {
        assert(s == s.subrange(0, s.len() as int));
    }
}

proof fn lemma_strip_trailing_piece(s: Seq<char>)
    ensures
        is_piece(strip_trailing_ws(s), s),
    decreases s.len(),
{
    if s.len() > 0 && crate::download::is_unicode_ws(s.last()) {
        lemma_strip_trailing_piece(s.drop_last());
        assert(is_piece(s.drop_last(), s)) by {
            assert(s.drop_last() == s.subrange(0, s.len() - 1));
        }
        lemma_piece_trans(strip_trailing_ws(s.drop_last()), s.drop_last(), s);
    } else {
        assert(s == s.subrange(0, s.len() as int));
    }
}

proof fn lemma_trim_dots(s: Seq<char>)
    ensures
        is_piece(trim_end_all(s, seq!['.']), s),
        !has_suffix(trim_end_all(s, seq!['.']), seq!['.']),
    decreases s.len(),
{
    if has_suffix(s, seq!['.']) {
        let p = s.subrange(0, s.len() - 1);
        lemma_trim_dots(p);
        assert(is_piece(p, s));
        lemma_piece_trans(trim_end_all(p, seq!['.']), p, s);
    } else {
        assert(s == s.subrange(0, s.len() as int));
    }
}

/// A sanitized path component is safe to join under a directory: it is
/// nonempty, holds no separator (`/`, `\`) or NUL, and is neither `.` nor
/// `..`.
pub proof fn law_sanitized_component_is_safe(c: Seq<char>)
    ensures
        sanitized_component(c) matches Some(t) ==> {
            &&& t.len() > 0
            &&& !t.contains('/')
            &&& !t.contains('\\')
            &&& !t.contains('\0')
            &&& t != seq!['.']
            &&& t != seq!['.', '.']
        },
{
    if let Some(t) = sanitized_component(c) {
        let w = trim_ws(c);
        lemma_strip_leading_piece(c);
        lemma_strip_trailing_piece(strip_leading_ws(c));
        lemma_piece_trans(w, strip_leading_ws(c), c);
        lemma_trim_dots(w);
        lemma_piece_trans(t, w, c);
        if t.contains('/') {
            lemma_piece_contains(t, c, '/');
        }
        if t.contains('\\') {
            lemma_piece_contains(t, c, '\\');
        }
        if t.contains('\0') {
            lemma_piece_contains(t, c, '\0');
        }
        if t == seq!['.'] {
            assert(t.subrange(t.len() - 1, t.len() as int) =~= seq!['.']);
        }
        if t == seq!['.', '.'] {
            assert(t.subrange(t.len() - 1, t.len() as int) =~= seq!['.']);
        }
    }
}

proof fn lemma_pending_tracks_all(s: Seq<MetaView>, base: Seq<char>, model_id: Seq<char>, files: Seq<PendingFile>)
    ensures
        forall|k: int| 0 <= k < files.len() ==> has_url(
            with_pending(s, base, model_id, files),
            url_of(base, model_id, (#[trigger] files[k]).0@),
        ),
    decreases files.len(),
{
    if files.len() > 0 {
        let prev_files = files.drop_last();
        lemma_pending_tracks_all(s, base, model_id, prev_files);
        let prev = with_pending(s, base, model_id, prev_files);
        let r = with_pending(s, base, model_id, files);
        let f = files.last();
        let url = url_of(base, model_id, f.0@);
        assert forall|k: int| 0 <= k < files.len() implies has_url(r, url_of(base, model_id, (#[trigger] files[k]).0@)) by {
            let u = url_of(base, model_id, files[k].0@);
            if k < files.len() - 1 {
                assert(prev_files[k] == files[k]);
                assert(has_url(prev, u));
                let i = choose|i: int| 0 <= i < prev.len() && (#[trigger] prev[i]).url == u;
                if !has_url(prev, url) {
                    assert(r[i] == prev[i]);
                }
            } else if !has_url(prev, url) {
                assert(r[r.len() - 1].url == url);
            }
        }
    }
}

proof fn lemma_pending_known(s: Seq<MetaView>, base: Seq<char>, model_id: Seq<char>, files: Seq<PendingFile>)
    requires
        forall|k: int| 0 <= k < files.len() ==> has_url(s, url_of(base, model_id, (#[trigger] files[k]).0@)),
    ensures
        with_pending(s, base, model_id, files) == s,
    decreases files.len(),
{
    if files.len() > 0 {
        let prev_files = files.drop_last();
        assert forall|k: int| 0 <= k < prev_files.len() implies has_url(s, url_of(base, model_id, (#[trigger] prev_files[k]).0@)) by {
            assert(prev_files[k] == files[k]);
        }
        lemma_pending_known(s, base, model_id, prev_files);
        assert(has_url(s, url_of(base, model_id, files[files.len() - 1].0@)));
    }
}

/// Seeding the registry with the same pending files a second time adds
/// nothing: every file's URL is already tracked after the first time.
pub proof fn law_register_pending_idempotent(s: Seq<MetaView>, base: Seq<char>, model_id: Seq<char>, files: Seq<PendingFile>)
    ensures
        with_pending(with_pending(s, base, model_id, files), base, model_id, files) == with_pending(s, base, model_id, files),
{
    lemma_pending_tracks_all(s, base, model_id, files);
    lemma_pending_known(with_pending(s, base, model_id, files), base, model_id, files);
}

proof fn lemma_child_named(s: Seq<NodeView>, p: Seq<char>, from: int)
    requires
        0 <= from,
    ensures
        child_named(s, p, from) == -1 ==> forall|i: int| from <= i < s.len() ==> (#[trigger] s[i]).name != p,
        child_named(s, p, from) != -1 ==> {
            let r = child_named(s, p, from);
            &&& from <= r < s.len()
            &&& s[r].name == p
            &&& forall|i: int| from <= i < r ==> (#[trigger] s[i]).name != p
        },
    decreases s.len() - from,
{
    if from < s.len() && s[from].name != p {
        lemma_child_named(s, p, from + 1);
    }
}

proof fn lemma_child_named_is(s: Seq<NodeView>, p: Seq<char>, j: int)
    requires
        0 <= j < s.len(),
        s[j].name == p,
        forall|i: int| 0 <= i < j ==> (#[trigger] s[i]).name != p,
    ensures
        child_named(s, p, 0) == j,
{
    lemma_child_named(s, p, 0);
    let r = child_named(s, p, 0);
    if r != -1 && r != j {
        if r < j {
            assert(s[r].name != p);
        } else {
            assert(s[j].name != p);
        }
    }
}

/// Inserting the same path a second time changes nothing: every part is
/// found again where the first insertion put it.
pub proof fn law_reinsert_changes_nothing(v: NodeView, parts: Seq<Seq<char>>, depth: nat, size: Option<u64>)
    ensures
        inserted(inserted(v, parts, depth, size), parts, depth, size) == inserted(v, parts, depth, size),
    decreases parts.len(),
{
    if parts.len() > 0 {
        let p = parts[0];
        let last = parts.len() == 1;
        let rest = parts.drop_first();
        let pos = child_named(v.children, p, 0);
        let v1 = inserted(v, parts, depth, size);
        lemma_child_named(v.children, p, 0);
        if pos >= 0 {
            let c = v.children[pos];
            let c2 = if last { c } else { inserted(c, rest, depth + 1, size) };
            if !last {
                law_reinsert_changes_nothing(c, rest, depth + 1, size);
            }
            assert(v1.children == v.children.update(pos, c2));
            assert(c2.name == p);
            assert forall|i: int| 0 <= i < pos implies (#[trigger] v1.children[i]).name != p by {
                assert(v1.children[i] == v.children[i]);
            }
            lemma_child_named_is(v1.children, p, pos);
            assert(v1.children.update(pos, c2) =~= v1.children);
        } else {
            let nc = crate::tree::new_child(v, p, last, depth, size);
            let c2 = if last { nc } else { inserted(nc, rest, depth + 1, size) };
            if !last {
                law_reinsert_changes_nothing(nc, rest, depth + 1, size);
            }
            let n = v.children.len() as int;
            assert(v1.children == v.children.push(c2));
            assert(v1.children[n] == c2);
            assert(c2.name == p);
            assert forall|i: int| 0 <= i < n implies (#[trigger] v1.children[i]).name != p by {
                assert(v1.children[i] == v.children[i]);
            }
            lemma_child_named_is(v1.children, p, n);
            assert(v1.children.update(n, c2) =~= v1.children);
        }
    }
}

/// A component that can be joined under a directory without escaping it.
pub open spec fn safe_component(t: Seq<char>) -> bool {
    &&& t.len() > 0
    &&& !t.contains('/')
    &&& !t.contains('\\')
    &&& !t.contains('\0')
    &&& t != seq!['.']
    &&& t != seq!['.', '.']
}

proof fn lemma_sanitized_parts_safe(parts: Seq<Seq<char>>)
    ensures
        sanitized_parts(parts) matches Ok(v) ==> forall|i: int| 0 <= i < v.len() ==> safe_component(#[trigger] v[i]),
    decreases parts.len(),
{
    if parts.len() > 0 {
        lemma_sanitized_parts_safe(parts.drop_last());
        law_sanitized_component_is_safe(parts.last());
    }
}

/// Every component of a validated download target (author, model name and
/// each part of the file name) is safe: no traversal, no separator, not
/// empty.
pub proof fn law_download_target_is_safe(model_id: Seq<char>, filename: Seq<char>)
    ensures
        download_target(model_id, filename) matches Ok((author, name, parts)) ==> {
            &&& safe_component(author)
            &&& safe_component(name)
            &&& forall|i: int| 0 <= i < parts.len() ==> safe_component(#[trigger] parts[i])
        },
{
    let mp = crate::text::split_on(model_id, '/');
    if mp.len() == 2 {
        law_sanitized_component_is_safe(mp[0]);
        law_sanitized_component_is_safe(mp[1]);
    }
    lemma_sanitized_parts_safe(crate::text::split_on(filename, '/'));
}

proof fn lemma_lex_irreflexive(a: Seq<char>)
    ensures
        !lex_lt(a, a),
    decreases a.len(),
{
    if a.len() > 0 {
        lemma_lex_irreflexive(a.drop_first());
    }
}

proof fn lemma_lex_transitive(a: Seq<char>, b: Seq<char>, c: Seq<char>)
    requires
        lex_lt(a, b),
        lex_lt(b, c),
    ensures
        lex_lt(a, c),
    decreases a.len(),
{
    if a.len() > 0 && b.len() > 0 && c.len() > 0 && a[0] == b[0] && b[0] == c[0] {
        lemma_lex_transitive(a.drop_first(), b.drop_first(), c.drop_first());
    }
}

proof fn lemma_lex_total(a: Seq<char>, b: Seq<char>)
    requires
        a != b,
    ensures
        lex_lt(a, b) || lex_lt(b, a),
    decreases a.len(),
{
    if a.len() > 0 && b.len() > 0 && a[0] == b[0] {
        if a.drop_first() == b.drop_first() {
            assert(a =~= seq![a[0]] + a.drop_first());
            assert(b =~= seq![b[0]] + b.drop_first());
        }
        lemma_lex_total(a.drop_first(), b.drop_first());
    } else if a.len() == 0 && b.len() == 0 {
        assert(a =~= b);
    }
}

proof fn lemma_key_asymmetric(a: NodeView, b: NodeView)
    ensures
        key_lt(a, b) ==> !key_lt(b, a),
{
    let x = unicode_lower(a.name);
    let y = unicode_lower(b.name);
    if lex_lt(x, y) && lex_lt(y, x) {
        lemma_lex_transitive(x, y, x);
        lemma_lex_irreflexive(x);
    }
}

proof fn lemma_key_not_lt_transitive(a: NodeView, b: NodeView, c: NodeView)
    requires
        !key_lt(a, b),
        !key_lt(b, c),
    ensures
        !key_lt(a, c),
{
    let x = unicode_lower(a.name);
    let y = unicode_lower(b.name);
    let z = unicode_lower(c.name);
    if key_lt(a, c) && a.is_dir == b.is_dir && b.is_dir == c.is_dir {
        if x != y {
            lemma_lex_total(x, y);
        }
        if y != z {
            lemma_lex_total(y, z);
        }
        if x == y {
            assert(lex_lt(y, z));
        } else if y == z {
            assert(lex_lt(x, y));
        } else {
            lemma_lex_transitive(z, y, x);
            lemma_lex_transitive(x, z, x);
            lemma_lex_irreflexive(x);
        }
    }
}

/// Siblings in display order: no node sorts before one listed earlier.
pub open spec fn in_display_order(s: Seq<NodeView>) -> bool {
    forall|i: int, j: int| 0 <= i < j < s.len() ==> !key_lt(#[trigger] s[j], #[trigger] s[i])
}

proof fn lemma_insert_sorted_members(s: Seq<NodeView>, x: NodeView)
    ensures
        insert_sorted(s, x).len() == s.len() + 1,
        forall|i: int| 0 <= i < insert_sorted(s, x).len() ==> #[trigger] insert_sorted(s, x)[i] == x || s.contains(insert_sorted(s, x)[i]),
    decreases s.len(),
{
    if s.len() > 0 && key_lt(x, s.last()) {
        lemma_insert_sorted_members(s.drop_last(), x);
        let r = insert_sorted(s, x);
        let t = insert_sorted(s.drop_last(), x);
        assert forall|i: int| 0 <= i < r.len() implies #[trigger] r[i] == x || s.contains(r[i]) by {
            if i < t.len() {
                assert(r[i] == t[i]);
                if t[i] != x {
                    let k = choose|k: int| 0 <= k < s.drop_last().len() && s.drop_last()[k] == t[i];
                    assert(s[k] == t[i]);
                }
            } else {
                assert(r[i] == s[s.len() - 1]);
            }
        }
    } else if s.len() > 0 {
        let r = s.push(x);
        assert forall|i: int| 0 <= i < r.len() implies #[trigger] r[i] == x || s.contains(r[i]) by {
            if i < s.len() {
                assert(r[i] == s[i]);
            }
        }
    }
}

proof fn lemma_insert_sorted_ordered(s: Seq<NodeView>, x: NodeView)
    requires
        in_display_order(s),
    ensures
        in_display_order(insert_sorted(s, x)),
    decreases s.len(),
{
    if s.len() > 0 {
        let last = s.last();
        if key_lt(x, last) {
            let p = s.drop_last();
            assert(in_display_order(p)) by {
                assert forall|i: int, j: int| 0 <= i < j < p.len() implies !key_lt(#[trigger] p[j], #[trigger] p[i]) by {
                    assert(p[i] == s[i] && p[j] == s[j]);
                }
            }
            lemma_insert_sorted_ordered(p, x);
            lemma_insert_sorted_members(p, x);
            let t = insert_sorted(p, x);
            let r = t.push(last);
            assert forall|i: int, j: int| 0 <= i < j < r.len() implies !key_lt(#[trigger] r[j], #[trigger] r[i]) by {
                if j < t.len() {
                    assert(r[i] == t[i] && r[j] == t[j]);
                } else {
                    assert(r[j] == last);
                    assert(r[i] == t[i]);
                    if t[i] == x {
                        lemma_key_asymmetric(x, last);
                    } else {
                        let k = choose|k: int| 0 <= k < p.len() && p[k] == t[i];
                        assert(s[k] == p[k]);
                        assert(!key_lt(s[s.len() - 1], s[k]));
                    }
                }
            }
        } else {
            let r = s.push(x);
            assert forall|i: int, j: int| 0 <= i < j < r.len() implies !key_lt(#[trigger] r[j], #[trigger] r[i]) by {
                if j < s.len() {
                    assert(r[i] == s[i] && r[j] == s[j]);
                } else {
                    assert(r[j] == x && r[i] == s[i]);
                    if i < s.len() - 1 {
                        assert(!key_lt(s[s.len() - 1], s[i]));
                        lemma_key_not_lt_transitive(x, last, s[i]);
                    }
                }
            }
        }
    }
}

/// Sorting siblings puts them in display order: directories first, then
/// by lowercased name.
pub proof fn law_stable_sort_in_display_order(s: Seq<NodeView>)
    ensures
        in_display_order(stable_sort(s)),
    decreases s.len(),
{
    if s.len() > 0 {
        law_stable_sort_in_display_order(s.drop_last());
        lemma_insert_sorted_ordered(stable_sort(s.drop_last()), s.last());
    }
}

/// After sorting a tree, the children of its root are in display order.
pub proof fn law_sorted_tree_root_in_display_order(v: NodeView)
    ensures
        in_display_order(sort_tree(v).children),
{
    law_stable_sort_in_display_order(sort_trees(v.children));
}

/// In a non-empty cyclic list, moving down and then up returns to the row
/// that was selected, and so does moving up and then down.
pub proof fn law_list_moves_undo(i: usize, len: nat)
    requires
        i < len,
        len <= usize::MAX,
    ensures
        prev_index(next_index(Some(i), len), len) == Some(i),
        next_index(prev_index(Some(i), len), len) == Some(i),
{
}

/// In GGUF mode three Tab presses from the model list come back to it.
pub proof fn law_tab_cycle_returns(a: App)
    requires
        a.display_mode == ModelDisplayMode::Gguf,
        a.focused_pane == FocusedPane::Models,
    ensures
        focus_toggled(focus_toggled(focus_toggled(a))).focused_pane == FocusedPane::Models,
{
}

/// Once a preset is applied, applying it again changes nothing (the key
/// then only reports that the preset is in use).
pub proof fn law_preset_settles(a: App, p: FilterPreset)
    ensures
        with_preset(with_preset(a, p), p) == with_preset(a, p),
{
}

/// Every step of a numeric option keeps it within the range that the
/// options popup allows, whatever the value was before.
pub proof fn law_option_step_in_range(o: AppOptions, delta: i32)
    requires
        option_step_fits(o, delta),
    ensures
        o.selected_field == 2 ==> 1 <= option_stepped(o, delta).concurrent_threads <= 32,
        o.selected_field == 3 ==> 10 <= option_stepped(o, delta).num_chunks <= 100,
        o.selected_field == 4 ==> 1048576 <= option_stepped(o, delta).min_chunk_size <= 52428800,
        o.selected_field == 5 ==> 10485760 <= option_stepped(o, delta).max_chunk_size <= 524288000,
        o.selected_field == 6 ==> option_stepped(o, delta).max_retries <= 10,
        o.selected_field == 7 ==> 60 <= option_stepped(o, delta).download_timeout_secs <= 600,
        o.selected_field == 8 ==> 1 <= option_stepped(o, delta).retry_delay_secs <= 10,
        o.selected_field == 9 ==> 100 <= option_stepped(o, delta).progress_update_interval_ms <= 1000,
        o.selected_field == 11 ==> 1 <= option_stepped(o, delta).concurrent_verifications <= 8,
        o.selected_field == 12 ==> 65536 <= option_stepped(o, delta).verification_buffer_size <= 524288,
        o.selected_field == 13 ==> 50 <= option_stepped(o, delta).verification_update_interval <= 500,
{
}

/// A filter step never leaves its scale: the new minimum is one of the
/// steps.
pub proof fn law_filter_steps_stay_on_scale(v: u64, up: bool)
    ensures
        download_steps().contains(stepped(download_steps(), v, up)),
        like_steps().contains(stepped(like_steps(), v, up)),
{
    let i = step_index_from(download_steps(), v, 0) as int;
    lemma_step_index_bound(download_steps(), v, 0);
    let j = step_index_from(like_steps(), v, 0) as int;
    lemma_step_index_bound(like_steps(), v, 0);
    let d = stepped(download_steps(), v, up);
    let l = stepped(like_steps(), v, up);
    let di: int = if up { if i + 1 < 6 { i + 1 } else { 5 } } else { if i > 0 { i - 1 } else { 0 } };
    let li: int = if up { if j + 1 < 7 { j + 1 } else { 6 } } else { if j > 0 { j - 1 } else { 0 } };
    assert(download_steps()[di] == d);
    assert(like_steps()[li] == l);
}

proof fn lemma_step_index_bound(steps: Seq<u64>, v: u64, i: nat)
    requires
        steps.len() > 0,
    ensures
        step_index_from(steps, v, i) < steps.len(),
    decreases steps.len() - i,
{
    if i < steps.len() && steps[i as int] != v {
        lemma_step_index_bound(steps, v, i + 1);
    }
}

/// A download row spends exactly its middle: the bar alone, or the bar,
/// the chunk label and a map of at most one cell per chunk.
pub proof fn law_row_fills_middle(middle: nat, num_chunks: nat, label_w: nat)
    ensures
        ({
            let (bar, cells) = row_layout(middle, num_chunks, label_w);
            &&& cells <= num_chunks
            &&& cells == 0 ==> bar == middle
            &&& cells > 0 ==> bar >= 24 && bar + label_w + cells == middle
        }),
{
}

/// A progress bar always has exactly its width, filled cells first.
pub proof fn law_bar_has_its_width(pct: nat, width: nat)
    ensures
        bar_text(pct, width).len() == width,
        bar_filled(pct, width) <= width,
        pct == 0 ==> bar_filled(pct, width) == 0,
        pct >= 100 ==> bar_filled(pct, width) == width,
{
    if pct >= 100 {
        assert((width * pct + 50) / 100 >= width) by (nonlinear_arith)
            requires
                pct >= 100,
        ;
    }
    if pct == 0 {
        assert(width * pct == 0) by (nonlinear_arith)
            requires
                pct == 0,
        ;
    }
}

/// After a preset is applied, the filter toolbar names that preset: each
/// preset's settings are recognised as that preset and no other.
pub proof fn law_applied_preset_is_shown(a: App, p: FilterPreset)
    ensures
        active_preset_of(
            with_preset(a, p).sort_field,
            with_preset(a, p).sort_direction,
            with_preset(a, p).filter_min_downloads,
            with_preset(a, p).filter_min_likes,
        ) == Some(p),
        toolbar_view(with_preset(a, p)).3 == Some("["@ + preset_name(p) + "]"@),
{
}

/// A search shows exactly the models of the Hub's answer that meet both
/// minimums (each as often as it came), and when the order is by name or
/// ascending, no model shown comes after a later one.
pub proof fn law_search_results_filtered_and_ordered(
    s: Seq<ModelInfo>,
    f: SortField,
    d: SortDirection,
    min_downloads: u64,
    min_likes: u64,
)
    ensures
        ({
            let r = search_results(s, f, d, min_downloads, min_likes);
            &&& forall|k: int| 0 <= k < r.len() ==> meets_minimums(#[trigger] r[k], min_downloads, min_likes)
            &&& forall|m: ModelInfo| #[trigger] r.to_multiset().count(m) == if meets_minimums(m, min_downloads, min_likes) {
                s.to_multiset().count(m)
            } else {
                0
            }
            &&& sorted_here(f, d) ==> in_order(r, f, d)
        }),
{
    let kept = kept_models(s, min_downloads, min_likes);
    lemma_kept_models(s, min_downloads, min_likes);
    lemma_sorted_models(kept, f, d);
    if sorted_here(f, d) {
        let r = sorted_models(kept, f, d);
        assert forall|k: int| 0 <= k < r.len() implies meets_minimums(#[trigger] r[k], min_downloads, min_likes) by {
            assert(r.to_multiset().count(r[k]) > 0) by {
                broadcast use vstd::seq_lib::group_to_multiset_ensures;
                assert(r.contains(r[k]));
            }
            assert(kept.to_multiset().count(r[k]) > 0);
            broadcast use vstd::seq_lib::group_to_multiset_ensures;
            let j = choose|j: int| 0 <= j < kept.len() && kept[j] == r[k];
            assert(meets_minimums(kept[j], min_downloads, min_likes));
        }
    }
}

proof fn lemma_entries_nonempty(files: Seq<RepoFile>)
    ensures
        gguf_entries(files).len() > 0 <==> exists|i: int| 0 <= i < files.len() && is_grouped(#[trigger] files[i]),
    decreases files.len(),
{
    if files.len() > 0 {
        let t = files.drop_last();
        lemma_entries_nonempty(t);
        if exists|i: int| 0 <= i < t.len() && is_grouped(#[trigger] t[i]) {
            let i = choose|i: int| 0 <= i < t.len() && is_grouped(#[trigger] t[i]);
            assert(files[i] == t[i]);
        }
        if exists|i: int| 0 <= i < files.len() && is_grouped(#[trigger] files[i]) {
            let i = choose|i: int| 0 <= i < files.len() && is_grouped(#[trigger] files[i]);
            if i < files.len() - 1 {
                assert(t[i] == files[i]);
            }
        }
    }
}

proof fn lemma_of_type_in(es: Seq<QEntry>, q: Seq<char>)
    ensures
        entries_of_type(es, q).len() > 0 ==> es.len() > 0,
    decreases es.len(),
{
    if es.len() > 0 {
        lemma_of_type_in(es.drop_last(), q);
    }
}

/// A listing without directory rows has GGUF files exactly when its
/// quantization classification has a group.
pub proof fn law_gguf_files_iff_groups(files: Seq<RepoFile>, groups: Seq<QuantizationGroup>)
    requires
        classification(files, groups),
        forall|i: int| 0 <= i < files.len() ==> !has_suffix((#[trigger] files[i]).rfilename@, seq!['/']),
    ensures
        has_gguf(files) <==> groups.len() > 0,
{
    lemma_entries_nonempty(files);
    let es = gguf_entries(files);
    if has_gguf(files) {
        let i = choose|i: int| 0 <= i < files.len() && is_gguf((#[trigger] files[i]).rfilename@);
        assert(is_grouped(files[i]));
        assert(es.len() > 0);
        let g = choose|g: int| 0 <= g < groups.len() && (#[trigger] groups[g]).quant_type@ == (#[trigger] es[0]).quant_type;
    }
    if groups.len() > 0 {
        assert(group_matches(groups[0], es));
        lemma_of_type_in(es, groups[0].quant_type@);
        let i = choose|i: int| 0 <= i < files.len() && is_grouped(#[trigger] files[i]);
        assert(is_gguf(files[i].rfilename@));
    }
}

/// The pending entries are those of the first files, in order: name,
/// size and hash.
pub open spec fn pending_matches(files: Seq<FileSpec>, pending: Seq<PendingFile>) -> bool {
    &&& pending.len() <= files.len()
    &&& forall|k: int|
        0 <= k < pending.len() ==> (#[trigger] pendings_view(pending)[k]).0 == files[k].filename@
            && pendings_view(pending)[k].1 == files[k].size_bytes && pendings_view(pending)[k].2 == opt_str_view(
            files[k].sha256,
        )
}

/// The `download` command registers nothing before every target path has
/// passed: a registration comes only from the announcement of no file, or
/// from the path check of the last file, and it carries one entry per
/// resolved file, in order, with that file's name, size and hash.  The
/// pending files of a run that is checking paths always match the first
/// resolved files (the step keeps this).
pub proof fn law_register_after_every_path(s: RunState, e: RunEvent, t: RunState, a: RunAction)
    requires
        run_transition(s, e, t, a),
        s matches RunState::CheckingPaths { files, pending, .. } ==> pending_matches(files@, pending@),
    ensures
        t matches RunState::CheckingPaths { files, pending, .. } ==> pending_matches(files@, pending@),
        a is Register ==> match s {
            RunState::Announcing { files, .. } => e is Announced && files@.len() == 0,
            RunState::CheckingPaths { files, pending, .. } => e matches RunEvent::PathChecked(Ok(_))
                && pending@.len() + 1 == files@.len(),
            _ => false,
        },
        a matches RunAction::Register { pending: reg } ==> (t matches RunState::Ready { files, .. }
            && reg@.len() == files@.len() && pending_matches(files@, reg@)),
{
    match (s, e) {
        (RunState::CheckingPaths { files, pending, .. }, RunEvent::PathChecked(Ok(path))) => {
            if pending@.len() < files@.len() {
                let next = pendings_view(pending@).push(entry_for(files@[pending@.len() as int], path@));
                assert forall|k: int| 0 <= k < next.len() implies #[trigger] next[k] == (if k < pending@.len() {
                    pendings_view(pending@)[k]
                } else {
                    entry_for(files@[pending@.len() as int], path@)
                }) by {}
            }
        },
        _ => {},
    }
}

/// Every child sits one level below its parent, and its path is its
/// parent's path and its own name joined by '/' (just the name below the
/// unnamed root).
pub open spec fn linked(v: NodeView) -> bool
    decreases v,
{
    forall|i: int|
        0 <= i < v.children.len() ==> {
            &&& (#[trigger] v.children[i]).depth == v.depth + 1
            &&& v.children[i].path == child_path(v.path, v.children[i].name)
            &&& linked(v.children[i])
        }
}

proof fn lemma_inserted_linked(v: NodeView, parts: Seq<Seq<char>>, depth: nat, size: Option<u64>)
    requires
        linked(v),
        v.depth == depth,
        depth + parts.len() <= usize::MAX,
    ensures
        linked(inserted(v, parts, depth, size)),
    decreases parts.len(),
{
    if parts.len() > 0 {
        let p = parts[0];
        let last = parts.len() == 1;
        let pos = child_named(v.children, p, 0);
        lemma_child_named(v.children, p, 0);
        let c = if pos >= 0 { v.children[pos] } else { new_child(v, p, last, depth, size) };
        assert(c.depth == depth + 1);
        assert(c.name == p);
        assert(c.path == child_path(v.path, p));
        assert(linked(c));
        let c2 = if last { c } else { inserted(c, parts.drop_first(), depth + 1, size) };
        if !last {
            lemma_inserted_linked(c, parts.drop_first(), depth + 1, size);
        }
        let r = inserted(v, parts, depth, size);
        assert forall|i: int| 0 <= i < r.children.len() implies {
            &&& (#[trigger] r.children[i]).depth == r.depth + 1
            &&& r.children[i].path == child_path(r.path, r.children[i].name)
            &&& linked(r.children[i])
        } by {
            if (pos >= 0 && i == pos) || (pos < 0 && i == v.children.len()) {
                assert(r.children[i] == c2);
            } else {
                assert(r.children[i] == v.children[i]);
            }
        }
    }
}

proof fn lemma_stable_sort_members(s: Seq<NodeView>)
    ensures
        stable_sort(s).len() == s.len(),
        forall|i: int| 0 <= i < s.len() ==> s.contains(#[trigger] stable_sort(s)[i]),
    decreases s.len(),
{
    if s.len() > 0 {
        let p = s.drop_last();
        lemma_stable_sort_members(p);
        lemma_insert_sorted_members(stable_sort(p), s.last());
        let r = stable_sort(s);
        assert forall|i: int| 0 <= i < s.len() implies s.contains(#[trigger] r[i]) by {
            if r[i] == s.last() {
                assert(s[s.len() - 1] == r[i]);
            } else {
                let k = choose|k: int| 0 <= k < stable_sort(p).len() && stable_sort(p)[k] == r[i];
                let m = choose|m: int| 0 <= m < p.len() && p[m] == stable_sort(p)[k];
                assert(s[m] == r[i]);
            }
        }
    }
}

proof fn lemma_sort_tree_linked(v: NodeView)
    requires
        linked(v),
    ensures
        linked(sort_tree(v)),
    decreases v,
{
    let cs = v.children;
    lemma_sort_trees_index(cs);
    lemma_stable_sort_members(sort_trees(cs));
    let r = sort_tree(v);
    assert forall|i: int| 0 <= i < r.children.len() implies {
        &&& (#[trigger] r.children[i]).depth == r.depth + 1
        &&& r.children[i].path == child_path(r.path, r.children[i].name)
        &&& linked(r.children[i])
    } by {
        let k = choose|k: int| 0 <= k < sort_trees(cs).len() && sort_trees(cs)[k] == r.children[i];
        assert(r.children[i] == sort_tree(cs[k]));
        assert(linked(cs[k]));
        lemma_sort_tree_linked(cs[k]);
    }
}

proof fn lemma_vsized_index(s: Seq<NodeView>)
    ensures
        vsized_all(s).len() == s.len(),
        forall|i: int| 0 <= i < s.len() ==> #[trigger] vsized_all(s)[i] == vsized(s[i]),
    decreases s.len(),
{
    if s.len() > 0 {
        lemma_vsized_index(s.drop_last());
        assert forall|i: int| 0 <= i < s.len() implies #[trigger] vsized_all(s)[i] == vsized(s[i]) by {
            if i < s.len() - 1 {
                assert(s.drop_last()[i] == s[i]);
            }
        }
    }
}

proof fn lemma_vsized_linked(v: NodeView)
    requires
        linked(v),
    ensures
        linked(vsized(v)),
    decreases v,
{
    if v.is_dir {
        let cs = v.children;
        lemma_vsized_index(cs);
        let r = vsized(v);
        assert forall|i: int| 0 <= i < r.children.len() implies {
            &&& (#[trigger] r.children[i]).depth == r.depth + 1
            &&& r.children[i].path == child_path(r.path, r.children[i].name)
            &&& linked(r.children[i])
        } by {
            assert(r.children[i] == vsized(cs[i]));
            assert(linked(cs[i]));
            lemma_vsized_linked(cs[i]);
        }
    }
}

proof fn lemma_built_linked(files: Seq<RepoFile>)
    requires
        forall|i: int| 0 <= i < files.len() ==> split_on(#[trigger] files[i].rfilename@, '/').len() <= usize::MAX,
    ensures
        linked(built(files)),
        built(files).name.len() == 0,
        built(files).path.len() == 0,
        built(files).is_dir,
        built(files).depth == 0,
    decreases files.len(),
{
    if files.len() > 0 {
        let p = files.drop_last();
        assert forall|i: int| 0 <= i < p.len() implies split_on(#[trigger] p[i].rfilename@, '/').len() <= usize::MAX by {
            assert(p[i] == files[i]);
        }
        lemma_built_linked(p);
        let f = files.last();
        assert(split_on(files[files.len() - 1].rfilename@, '/').len() <= usize::MAX);
        lemma_inserted_linked(built(p), split_on(f.rfilename@, '/'), 0, f.size);
        lemma_inserted_keeps_root(built(p), split_on(f.rfilename@, '/'), 0, f.size);
    }
}

proof fn lemma_inserted_keeps_root(v: NodeView, parts: Seq<Seq<char>>, depth: nat, size: Option<u64>)
    ensures
        inserted(v, parts, depth, size).name == v.name,
        inserted(v, parts, depth, size).path == v.path,
        inserted(v, parts, depth, size).is_dir == v.is_dir,
        inserted(v, parts, depth, size).depth == v.depth,
        inserted(v, parts, depth, size).size == v.size,
{
}

/// A node's size with an unknown size counted as 0.
pub open spec fn size_or_zero(v: NodeView) -> nat {
    match v.size {
        Some(n) => n as nat,
        None => 0,
    }
}

pub open spec fn children_size_sum(s: Seq<NodeView>) -> nat
    decreases s.len(),
{
    if s.len() == 0 {
        0
    } else {
        children_size_sum(s.drop_last()) + size_or_zero(s.last())
    }
}

/// Every directory's size is the sum of its children's sizes (an unknown
/// size counting 0), all the way down.
pub open spec fn sizes_add_up(v: NodeView) -> bool
    decreases v,
{
    v.is_dir ==> {
        &&& v.size matches Some(n) && n == children_size_sum(v.children)
        &&& forall|i: int| 0 <= i < v.children.len() ==> sizes_add_up(#[trigger] v.children[i])
    }
}

proof fn lemma_vsized_sizes(v: NodeView)
    requires
        vtotal(v) <= u64::MAX,
    ensures
        sizes_add_up(vsized(v)),
        size_or_zero(vsized(v)) == vtotal(v),
    decreases v,
{
    if v.is_dir {
        lemma_vsized_sizes_all(v.children);
        lemma_vsized_index(v.children);
        let r = vsized(v);
        assert(r.size == Some(vtotal(v) as u64));
        assert forall|i: int| 0 <= i < r.children.len() implies sizes_add_up(#[trigger] r.children[i]) by {
            assert(r.children[i] == vsized_all(v.children)[i]);
        }
    }
}

proof fn lemma_vsized_sizes_all(s: Seq<NodeView>)
    requires
        vtotal_all(s) <= u64::MAX,
    ensures
        children_size_sum(vsized_all(s)) == vtotal_all(s),
        forall|i: int| 0 <= i < vsized_all(s).len() ==> sizes_add_up(#[trigger] vsized_all(s)[i]),
    decreases s,
{
    lemma_vsized_index(s);
    if s.len() > 0 {
        let p = s.drop_last();
        lemma_vsized_sizes_all(p);
        lemma_vsized_sizes(s.last());
        lemma_vsized_index(p);
        let r = vsized_all(s);
        assert(r == vsized_all(p).push(vsized(s.last())));
        assert(r.drop_last() =~= vsized_all(p));
        assert(r.last() == vsized(s.last()));
        assert forall|i: int| 0 <= i < r.len() implies sizes_add_up(#[trigger] r[i]) by {
            if i < r.len() - 1 {
                assert(r[i] == vsized_all(p)[i]);
            }
        }
    }
}

/// Siblings in display order at every level of the tree.
pub open spec fn ordered(v: NodeView) -> bool
    decreases v,
{
    &&& in_display_order(v.children)
    &&& forall|i: int| 0 <= i < v.children.len() ==> ordered(#[trigger] v.children[i])
}

proof fn lemma_sort_tree_ordered(v: NodeView)
    ensures
        ordered(sort_tree(v)),
    decreases v,
{
    let cs = v.children;
    lemma_sort_trees_index(cs);
    lemma_stable_sort_members(sort_trees(cs));
    law_stable_sort_in_display_order(sort_trees(cs));
    let r = sort_tree(v);
    assert forall|i: int| 0 <= i < r.children.len() implies ordered(#[trigger] r.children[i]) by {
        let k = choose|k: int| 0 <= k < sort_trees(cs).len() && sort_trees(cs)[k] == r.children[i];
        assert(r.children[i] == sort_tree(cs[k]));
        lemma_sort_tree_ordered(cs[k]);
    }
}

proof fn lemma_vsized_ordered(v: NodeView)
    requires
        ordered(v),
    ensures
        ordered(vsized(v)),
    decreases v,
{
    if v.is_dir {
        let cs = v.children;
        lemma_vsized_index(cs);
        let r = vsized(v);
        assert forall|i: int, j: int| 0 <= i < j < r.children.len() implies !key_lt(
            #[trigger] r.children[j],
            #[trigger] r.children[i],
        ) by {
            assert(r.children[i] == vsized(cs[i]) && r.children[j] == vsized(cs[j]));
            assert(!key_lt(cs[j], cs[i]));
        }
        assert forall|i: int| 0 <= i < r.children.len() implies ordered(#[trigger] r.children[i]) by {
            assert(r.children[i] == vsized(cs[i]));
            assert(ordered(cs[i]));
            lemma_vsized_ordered(cs[i]);
        }
    }
}

/// No two siblings share a name.
pub open spec fn names_distinct(s: Seq<NodeView>) -> bool {
    forall|i: int, j: int| 0 <= i < j < s.len() ==> (#[trigger] s[i]).name != (#[trigger] s[j]).name
}

/// Sibling names are distinct at every level of the tree.
pub open spec fn distinct_below(v: NodeView) -> bool
    decreases v,
{
    &&& names_distinct(v.children)
    &&& forall|i: int| 0 <= i < v.children.len() ==> distinct_below(#[trigger] v.children[i])
}

proof fn lemma_inserted_distinct(v: NodeView, parts: Seq<Seq<char>>, depth: nat, size: Option<u64>)
    requires
        distinct_below(v),
    ensures
        distinct_below(inserted(v, parts, depth, size)),
    decreases parts.len(),
{
    if parts.len() > 0 {
        let p = parts[0];
        let last = parts.len() == 1;
        let pos = child_named(v.children, p, 0);
        lemma_child_named(v.children, p, 0);
        let c = if pos >= 0 { v.children[pos] } else { new_child(v, p, last, depth, size) };
        assert(c.name == p);
        assert(distinct_below(c));
        let c2 = if last { c } else { inserted(c, parts.drop_first(), depth + 1, size) };
        if !last {
            lemma_inserted_distinct(c, parts.drop_first(), depth + 1, size);
        }
        assert(c2.name == p);
        let r = inserted(v, parts, depth, size);
        let n = v.children.len() as int;
        assert forall|i: int| 0 <= i < r.children.len() implies {
            &&& distinct_below(#[trigger] r.children[i])
            &&& (r.children[i].name == p || (i < n && r.children[i] == v.children[i]))
        } by {
            if (pos >= 0 && i == pos) || (pos < 0 && i == n) {
                assert(r.children[i] == c2);
            } else {
                assert(r.children[i] == v.children[i]);
            }
        }
        assert forall|i: int, j: int| 0 <= i < j < r.children.len() implies (#[trigger] r.children[i]).name
            != (#[trigger] r.children[j]).name by {
            if pos >= 0 {
                if i == pos {
                    assert(r.children[j] == v.children[j]);
                } else if j == pos {
                    assert(r.children[i] == v.children[i]);
                } else {
                    assert(r.children[i] == v.children[i] && r.children[j] == v.children[j]);
                }
            } else {
                assert(r.children[i] == v.children[i]);
                if j < n {
                    assert(r.children[j] == v.children[j]);
                }
            }
        }
    }
}

proof fn lemma_insert_sorted_distinct(t: Seq<NodeView>, x: NodeView)
    requires
        names_distinct(t),
        forall|i: int| 0 <= i < t.len() ==> (#[trigger] t[i]).name != x.name,
    ensures
        names_distinct(insert_sorted(t, x)),
    decreases t.len(),
{
    if t.len() > 0 {
        let l = t.last();
        if key_lt(x, l) {
            let q = t.drop_last();
            assert forall|i: int, j: int| 0 <= i < j < q.len() implies (#[trigger] q[i]).name
                != (#[trigger] q[j]).name by {
                assert(q[i] == t[i] && q[j] == t[j]);
            }
            assert forall|i: int| 0 <= i < q.len() implies (#[trigger] q[i]).name != x.name by {
                assert(q[i] == t[i]);
            }
            lemma_insert_sorted_distinct(q, x);
            lemma_insert_sorted_members(q, x);
            let m = insert_sorted(q, x);
            let r = m.push(l);
            assert forall|i: int, j: int| 0 <= i < j < r.len() implies (#[trigger] r[i]).name
                != (#[trigger] r[j]).name by {
                assert(r[i] == m[i]);
                if j < m.len() {
                    assert(r[j] == m[j]);
                } else {
                    assert(r[j] == l);
                    assert(t[t.len() - 1] == l);
                    if m[i] != x {
                        let k = choose|k: int| 0 <= k < q.len() && q[k] == m[i];
                        assert(t[k] == q[k]);
                    }
                }
            }
        } else {
            let r = t.push(x);
            assert forall|i: int, j: int| 0 <= i < j < r.len() implies (#[trigger] r[i]).name
                != (#[trigger] r[j]).name by {
                assert(r[i] == t[i]);
                if j < t.len() {
                    assert(r[j] == t[j]);
                }
            }
        }
    }
}

proof fn lemma_stable_sort_distinct(s: Seq<NodeView>)
    requires
        names_distinct(s),
    ensures
        names_distinct(stable_sort(s)),
    decreases s.len(),
{
    if s.len() > 0 {
        let p = s.drop_last();
        let x = s.last();
        assert forall|i: int, j: int| 0 <= i < j < p.len() implies (#[trigger] p[i]).name
            != (#[trigger] p[j]).name by {
            assert(p[i] == s[i] && p[j] == s[j]);
        }
        lemma_stable_sort_distinct(p);
        lemma_stable_sort_members(p);
        let t = stable_sort(p);
        assert forall|i: int| 0 <= i < t.len() implies (#[trigger] t[i]).name != x.name by {
            let k = choose|k: int| 0 <= k < p.len() && p[k] == t[i];
            assert(s[k] == p[k]);
            assert(s[s.len() - 1] == x);
        }
        lemma_insert_sorted_distinct(t, x);
    }
}

proof fn lemma_sort_tree_distinct(v: NodeView)
    requires
        distinct_below(v),
    ensures
        distinct_below(sort_tree(v)),
    decreases v,
{
    let cs = v.children;
    lemma_sort_trees_index(cs);
    let st = sort_trees(cs);
    assert forall|i: int, j: int| 0 <= i < j < st.len() implies (#[trigger] st[i]).name
        != (#[trigger] st[j]).name by {
        assert(st[i] == sort_tree(cs[i]) && st[j] == sort_tree(cs[j]));
    }
    lemma_stable_sort_distinct(st);
    lemma_stable_sort_members(st);
    let r = sort_tree(v);
    assert forall|i: int| 0 <= i < r.children.len() implies distinct_below(#[trigger] r.children[i]) by {
        let k = choose|k: int| 0 <= k < st.len() && st[k] == r.children[i];
        assert(r.children[i] == sort_tree(cs[k]));
        assert(distinct_below(cs[k]));
        lemma_sort_tree_distinct(cs[k]);
    }
}

proof fn lemma_vsized_distinct(v: NodeView)
    requires
        distinct_below(v),
    ensures
        distinct_below(vsized(v)),
    decreases v,
{
    if v.is_dir {
        let cs = v.children;
        lemma_vsized_index(cs);
        let r = vsized(v);
        assert forall|i: int, j: int| 0 <= i < j < r.children.len() implies (#[trigger] r.children[i]).name
            != (#[trigger] r.children[j]).name by {
            assert(r.children[i] == vsized(cs[i]) && r.children[j] == vsized(cs[j]));
        }
        assert forall|i: int| 0 <= i < r.children.len() implies distinct_below(#[trigger] r.children[i]) by {
            assert(r.children[i] == vsized(cs[i]));
            assert(distinct_below(cs[i]));
            lemma_vsized_distinct(cs[i]);
        }
    }
}

proof fn lemma_built_distinct(files: Seq<RepoFile>)
    ensures
        distinct_below(built(files)),
    decreases files.len(),
{
    if files.len() > 0 {
        lemma_built_distinct(files.drop_last());
        let f = files.last();
        lemma_inserted_distinct(built(files.drop_last()), split_on(f.rfilename@, '/'), 0, f.size);
    }
}

/// The shape of a display tree: an unnamed root directory at depth 0, each
/// child one level below its parent with the joined path, sibling names
/// distinct and in display order at every level, and every directory's
/// size the sum of its children's sizes.
pub open spec fn well_shaped(t: NodeView) -> bool {
    &&& t.name.len() == 0
    &&& t.path.len() == 0
    &&& t.is_dir
    &&& t.depth == 0
    &&& linked(t)
    &&& distinct_below(t)
    &&& ordered(t)
    &&& sizes_add_up(t)
}

/// The tree built from a listing, sorted and sized, is well shaped (see
/// [`well_shaped`]) whenever the total of its file sizes fits in a `u64`
/// (and each name has no more parts than a `usize` counts).
pub proof fn law_built_tree_well_shaped(files: Seq<RepoFile>)
    requires
        vtotal(built(files)) <= u64::MAX,
        forall|i: int| 0 <= i < files.len() ==> split_on(#[trigger] files[i].rfilename@, '/').len() <= usize::MAX,
    ensures
        well_shaped(vsized(sort_tree(built(files)))),
{
    let b = built(files);
    lemma_built_linked(files);
    lemma_built_distinct(files);
    lemma_sort_tree_linked(b);
    lemma_sort_tree_distinct(b);
    lemma_sort_tree_ordered(b);
    lemma_sort_tree_total(b);
    let s = sort_tree(b);
    lemma_vsized_linked(s);
    lemma_vsized_distinct(s);
    lemma_vsized_ordered(s);
    lemma_vsized_sizes(s);
}

/// The node reached from `v` by following, level by level, the first
/// child named by each of `q`, if every name is found.
pub open spec fn reaches(v: NodeView, q: Seq<Seq<char>>) -> Option<NodeView>
    decreases q.len(),
{
    if q.len() == 0 {
        Some(v)
    } else {
        let k = child_named(v.children, q[0], 0);
        if k < 0 {
            None
        } else {
            reaches(v.children[k], q.drop_first())
        }
    }
}

/// `a` is `b` or a beginning of it.
pub open spec fn parts_prefix(a: Seq<Seq<char>>, b: Seq<Seq<char>>) -> bool {
    a.len() <= b.len() && b.take(a.len() as int) == a
}

proof fn lemma_child_named_kept(s: Seq<NodeView>, t: Seq<NodeView>, p0: Seq<char>, q0: Seq<char>)
    requires
        q0 != p0,
        s.len() <= t.len(),
        forall|i: int| 0 <= i < s.len() ==> #[trigger] t[i] == s[i] || (s[i].name == p0 && t[i].name == p0),
        forall|i: int| s.len() <= i < t.len() ==> (#[trigger] t[i]).name == p0,
    ensures
        child_named(t, q0, 0) == child_named(s, q0, 0),
        child_named(s, q0, 0) >= 0 ==> t[child_named(s, q0, 0)] == s[child_named(s, q0, 0)],
{
    lemma_child_named(s, q0, 0);
    lemma_child_named(t, q0, 0);
    let k = child_named(s, q0, 0);
    if k >= 0 {
        assert(t[k] == s[k]);
        assert forall|i: int| 0 <= i < k implies (#[trigger] t[i]).name != q0 by {
            assert(s[i].name != q0);
        }
        lemma_child_named_is(t, q0, k);
    } else {
        let j = child_named(t, q0, 0);
        if j >= 0 {
            if j < s.len() {
                assert(s[j].name != q0);
            }
        }
    }
}

proof fn lemma_inserted_finds(v: NodeView, p: Seq<Seq<char>>, d: nat, size: Option<u64>)
    requires
        p.len() > 0,
    ensures
        ({
            let pos = child_named(v.children, p[0], 0);
            let r = inserted(v, p, d, size);
            let idx = if pos >= 0 { pos } else { v.children.len() as int };
            &&& child_named(r.children, p[0], 0) == idx
            &&& 0 <= idx < r.children.len()
            &&& r.children.len() == (if pos >= 0 { v.children.len() } else { v.children.len() + 1 })
            &&& forall|i: int| 0 <= i < v.children.len() && i != idx ==> #[trigger] r.children[i] == v.children[i]
            &&& r.children[idx].name == p[0]
        }),
{
    let p0 = p[0];
    let last = p.len() == 1;
    let pos = child_named(v.children, p0, 0);
    lemma_child_named(v.children, p0, 0);
    let r = inserted(v, p, d, size);
    let idx = if pos >= 0 { pos } else { v.children.len() as int };
    let c = if pos >= 0 { v.children[pos] } else { new_child(v, p0, last, d, size) };
    lemma_inserted_keeps_root(c, p.drop_first(), d + 1, size);
    assert(r.children[idx] == (if last { c } else { inserted(c, p.drop_first(), d + 1, size) }));
    assert forall|i: int| 0 <= i < v.children.len() && i != idx implies #[trigger] r.children[i] == v.children[i] by {}
    assert forall|i: int| 0 <= i < idx implies (#[trigger] r.children[i]).name != p0 by {
        assert(r.children[i] == v.children[i]);
    }
    lemma_child_named_is(r.children, p0, idx);
}

proof fn lemma_prefix_cons(a: Seq<Seq<char>>, b: Seq<Seq<char>>)
    requires
        a.len() > 0,
        b.len() > 0,
        a[0] == b[0],
        parts_prefix(a.drop_first(), b.drop_first()),
    ensures
        parts_prefix(a, b),
{
    let ar = a.drop_first();
    let br = b.drop_first();
    assert forall|i: int| 0 <= i < a.len() implies b[i] == a[i] by {
        if i > 0 {
            assert(a[i] == ar[i - 1]);
            assert(br.take(ar.len() as int)[i - 1] == br[i - 1]);
        }
    }
    assert(b.take(a.len() as int) =~= a);
}

proof fn lemma_reach_inserted(v: NodeView, p: Seq<Seq<char>>, d: nat, size: Option<u64>, q: Seq<Seq<char>>)
    requires
        reaches(inserted(v, p, d, size), q) is Some,
    ensures
        reaches(v, q) is Some || parts_prefix(q, p),
    decreases q.len(),
{
    if q.len() > 0 && p.len() > 0 {
        let p0 = p[0];
        let last = p.len() == 1;
        let pos = child_named(v.children, p0, 0);
        let c = if pos >= 0 { v.children[pos] } else { new_child(v, p0, last, d, size) };
        let c2 = if last { c } else { inserted(c, p.drop_first(), d + 1, size) };
        let r = inserted(v, p, d, size);
        let n = v.children.len() as int;
        let idx = if pos >= 0 { pos } else { n };
        lemma_inserted_finds(v, p, d, size);
        assert(r.children[idx] == c2);
        if q[0] != p0 {
            assert forall|i: int| 0 <= i < v.children.len() implies #[trigger] r.children[i] == v.children[i] || (
            v.children[i].name == p0 && r.children[i].name == p0) by {
                if i == idx {
                    lemma_child_named(v.children, p0, 0);
                }
            }
            lemma_child_named_kept(v.children, r.children, p0, q[0]);
        } else {
            assert(reaches(r, q) == reaches(c2, q.drop_first()));
            if last {
                if pos < 0 {
                    assert(c2.children.len() == 0);
                    assert(q.drop_first().len() == 0);
                    assert(p.take(q.len() as int) =~= q);
                }
            } else {
                lemma_reach_inserted(c, p.drop_first(), d + 1, size, q.drop_first());
                if parts_prefix(q.drop_first(), p.drop_first()) {
                    lemma_prefix_cons(q, p);
                } else if pos < 0 {
                    assert(c.children.len() == 0);
                    assert(q.drop_first().len() == 0);
                    assert(p.take(q.len() as int) =~= q);
                }
            }
        }
    }
}

proof fn lemma_reach_kept(v: NodeView, p: Seq<Seq<char>>, d: nat, size: Option<u64>, q: Seq<Seq<char>>)
    requires
        reaches(v, q) is Some,
        !parts_prefix(q, p),
        !parts_prefix(p, q),
    ensures
        reaches(inserted(v, p, d, size), q) == reaches(v, q),
    decreases q.len(),
{
    if p.len() == 0 {
        assert(q.take(0) =~= p);
    }
    if q.len() == 0 {
        assert(p.take(0) =~= q);
    }
    let p0 = p[0];
    let last = p.len() == 1;
    let pos = child_named(v.children, p0, 0);
    let c = if pos >= 0 { v.children[pos] } else { new_child(v, p0, last, d, size) };
    let c2 = if last { c } else { inserted(c, p.drop_first(), d + 1, size) };
    let r = inserted(v, p, d, size);
    let n = v.children.len() as int;
    let idx = if pos >= 0 { pos } else { n };
    lemma_inserted_finds(v, p, d, size);
    assert(r.children[idx] == c2);
    if q[0] != p0 {
        assert forall|i: int| 0 <= i < v.children.len() implies #[trigger] r.children[i] == v.children[i] || (
        v.children[i].name == p0 && r.children[i].name == p0) by {
            if i == idx {
                lemma_child_named(v.children, p0, 0);
            }
        }
        lemma_child_named_kept(v.children, r.children, p0, q[0]);
    } else {
        assert(pos >= 0);
        if last {
            assert(q.take(1) =~= p);
        }
        let pr = p.drop_first();
        let qr = q.drop_first();
        if parts_prefix(qr, pr) {
            lemma_prefix_cons(q, p);
        }
        if parts_prefix(pr, qr) {
            lemma_prefix_cons(p, q);
        }
        lemma_reach_kept(c, pr, d + 1, size, qr);
    }
}

proof fn lemma_reach_new(v: NodeView, p: Seq<Seq<char>>, d: nat, size: Option<u64>)
    requires
        p.len() > 0,
        reaches(v, p) is None,
    ensures
        reaches(inserted(v, p, d, size), p) matches Some(w) && !w.is_dir && w.size == size,
    decreases p.len(),
{
    let p0 = p[0];
    let last = p.len() == 1;
    let pos = child_named(v.children, p0, 0);
    let c = if pos >= 0 { v.children[pos] } else { new_child(v, p0, last, d, size) };
    let c2 = if last { c } else { inserted(c, p.drop_first(), d + 1, size) };
    let r = inserted(v, p, d, size);
    let idx = if pos >= 0 { pos } else { v.children.len() as int };
    lemma_inserted_finds(v, p, d, size);
    assert(r.children[idx] == c2);
    assert(reaches(r, p) == reaches(c2, p.drop_first()));
    if !last {
        if pos < 0 {
            assert(c.children.len() == 0);
        }
        lemma_reach_new(c, p.drop_first(), d + 1, size);
    }
}

/// The `/`-separated parts of a listed file's name.
pub open spec fn parts_of(f: RepoFile) -> Seq<Seq<char>> {
    split_on(f.rfilename@, '/')
}

/// A listing that forms a tree: no name has an empty part, and no file's
/// parts begin another file's (so no name is listed twice and no file
/// stands where another file's directory would be).
pub open spec fn listing_is_tree(files: Seq<RepoFile>) -> bool {
    &&& forall|i: int, j: int|
        0 <= i < files.len() && 0 <= j < files.len() && i != j ==> !parts_prefix(
            parts_of(#[trigger] files[i]),
            parts_of(#[trigger] files[j]),
        )
    &&& forall|i: int, k: int|
        0 <= i < files.len() && 0 <= k < parts_of(files[i]).len() ==> (#[trigger] parts_of(files[i])[k]).len() > 0
}

proof fn lemma_built_origin(files: Seq<RepoFile>, q: Seq<Seq<char>>)
    requires
        reaches(built(files), q) is Some,
        q.len() > 0,
    ensures
        exists|j: int| 0 <= j < files.len() && parts_prefix(q, parts_of(#[trigger] files[j])),
    decreases files.len(),
{
    if files.len() == 0 {
        assert(built(files).children.len() == 0);
    } else {
        let prev = files.drop_last();
        let f = files.last();
        lemma_reach_inserted(built(prev), parts_of(f), 0, f.size, q);
        if reaches(built(prev), q) is Some {
            lemma_built_origin(prev, q);
            let j = choose|j: int| 0 <= j < prev.len() && parts_prefix(q, parts_of(#[trigger] prev[j]));
            assert(files[j] == prev[j]);
        } else {
            assert(files[files.len() - 1] == f);
        }
    }
}

/// `f` is found in `t` by its parts, as a file node with `f`'s size.
pub open spec fn found_file(t: NodeView, f: RepoFile) -> bool {
    reaches(t, parts_of(f)) matches Some(w) && !w.is_dir && w.size == f.size
}

proof fn lemma_built_finds(files: Seq<RepoFile>)
    requires
        listing_is_tree(files),
    ensures
        forall|i: int| 0 <= i < files.len() ==> found_file(built(files), #[trigger] files[i]),
    decreases files.len(),
{
    if files.len() > 0 {
        let n = files.len() - 1;
        let prev = files.drop_last();
        let f = files.last();
        assert(f == files[n]);
        assert(listing_is_tree(prev)) by {
            assert forall|i: int, j: int|
                0 <= i < prev.len() && 0 <= j < prev.len() && i != j implies !parts_prefix(
                parts_of(#[trigger] prev[i]),
                parts_of(#[trigger] prev[j]),
            ) by {
                assert(prev[i] == files[i] && prev[j] == files[j]);
            }
            assert forall|i: int, k: int|
                0 <= i < prev.len() && 0 <= k < parts_of(prev[i]).len() implies (#[trigger] parts_of(
                prev[i],
            )[k]).len() > 0 by {
                assert(prev[i] == files[i]);
            }
        }
        lemma_built_finds(prev);
        let pf = parts_of(f);
        lemma_split_nonempty(f.rfilename@, '/');
        if reaches(built(prev), pf) is Some {
            lemma_built_origin(prev, pf);
            let j = choose|j: int| 0 <= j < prev.len() && parts_prefix(pf, parts_of(#[trigger] prev[j]));
            assert(prev[j] == files[j]);
            assert(!parts_prefix(parts_of(files[n]), parts_of(files[j])));
        }
        lemma_reach_new(built(prev), pf, 0, f.size);
        assert forall|i: int| 0 <= i < files.len() implies found_file(built(files), #[trigger] files[i]) by {
            if i < n {
                assert(prev[i] == files[i]);
                assert(found_file(built(prev), prev[i]));
                assert(!parts_prefix(parts_of(files[i]), parts_of(files[n])));
                assert(!parts_prefix(parts_of(files[n]), parts_of(files[i])));
                lemma_reach_kept(built(prev), pf, 0, f.size, parts_of(files[i]));
            }
        }
    }
}

proof fn lemma_insert_sorted_has(s: Seq<NodeView>, x: NodeView)
    ensures
        insert_sorted(s, x).contains(x),
        forall|i: int| 0 <= i < s.len() ==> insert_sorted(s, x).contains(#[trigger] s[i]),
    decreases s.len(),
{
    let r = insert_sorted(s, x);
    if s.len() == 0 {
        assert(r[0] == x);
    } else if key_lt(x, s.last()) {
        let p = s.drop_last();
        lemma_insert_sorted_has(p, x);
        let t = insert_sorted(p, x);
        assert(r == t.push(s.last()));
        let k = choose|k: int| 0 <= k < t.len() && t[k] == x;
        assert(r[k] == x);
        assert forall|i: int| 0 <= i < s.len() implies r.contains(#[trigger] s[i]) by {
            if i < s.len() - 1 {
                assert(p[i] == s[i]);
                let m = choose|m: int| 0 <= m < t.len() && t[m] == p[i];
                assert(r[m] == s[i]);
            } else {
                assert(r[t.len() as int] == s[i]);
            }
        }
    } else {
        assert(r == s.push(x));
        assert(r[s.len() as int] == x);
        assert forall|i: int| 0 <= i < s.len() implies r.contains(#[trigger] s[i]) by {
            assert(r[i] == s[i]);
        }
    }
}

proof fn lemma_stable_sort_has(s: Seq<NodeView>)
    ensures
        forall|i: int| 0 <= i < s.len() ==> stable_sort(s).contains(#[trigger] s[i]),
    decreases s.len(),
{
    if s.len() > 0 {
        let p = s.drop_last();
        lemma_stable_sort_has(p);
        let t = stable_sort(p);
        lemma_insert_sorted_has(t, s.last());
        let r = stable_sort(s);
        assert forall|i: int| 0 <= i < s.len() implies r.contains(#[trigger] s[i]) by {
            if i < s.len() - 1 {
                assert(p[i] == s[i]);
                let m = choose|m: int| 0 <= m < t.len() && t[m] == p[i];
                assert(insert_sorted(t, s.last()).contains(t[m]));
            }
        }
    }
}

proof fn lemma_sort_reach(v: NodeView, q: Seq<Seq<char>>)
    requires
        distinct_below(v),
        reaches(v, q) is Some,
    ensures
        reaches(sort_tree(v), q) == Some(sort_tree(reaches(v, q)->0)),
    decreases q.len(),
{
    if q.len() > 0 {
        let q0 = q[0];
        let cs = v.children;
        let k = child_named(cs, q0, 0);
        lemma_child_named(cs, q0, 0);
        let c = cs[k];
        lemma_sort_trees_index(cs);
        let st = sort_trees(cs);
        assert forall|i: int, j: int| 0 <= i < j < st.len() implies (#[trigger] st[i]).name
            != (#[trigger] st[j]).name by {
            assert(st[i] == sort_tree(cs[i]) && st[j] == sort_tree(cs[j]));
        }
        lemma_stable_sort_distinct(st);
        lemma_stable_sort_has(st);
        let srt = stable_sort(st);
        assert(st[k] == sort_tree(c));
        assert(srt.contains(st[k]));
        let m = choose|m: int| 0 <= m < srt.len() && srt[m] == st[k];
        assert forall|i: int| 0 <= i < m implies (#[trigger] srt[i]).name != q0 by {
            assert(srt[m].name == q0);
        }
        lemma_child_named_is(srt, q0, m);
        assert(sort_tree(v).children == srt);
        assert(distinct_below(c));
        lemma_sort_reach(c, q.drop_first());
    }
}

proof fn lemma_vsized_reach(v: NodeView, q: Seq<Seq<char>>)
    requires
        reaches(v, q) is Some,
    ensures
        reaches(vsized(v), q) is Some,
        ({
            let w = reaches(v, q)->0;
            let w2 = reaches(vsized(v), q)->0;
            &&& w2.is_dir == w.is_dir
            &&& w2.path == w.path
            &&& (!w.is_dir ==> w2.size == w.size)
        }),
    decreases q.len(),
{
    if q.len() > 0 && v.is_dir {
        let q0 = q[0];
        let cs = v.children;
        let k = child_named(cs, q0, 0);
        lemma_child_named(cs, q0, 0);
        lemma_vsized_index(cs);
        let vs = vsized_all(cs);
        assert forall|i: int| 0 <= i < k implies (#[trigger] vs[i]).name != q0 by {
            assert(vs[i] == vsized(cs[i]));
        }
        assert(vs[k] == vsized(cs[k]));
        lemma_child_named_is(vs, q0, k);
        lemma_vsized_reach(cs[k], q.drop_first());
    }
}

/// The path of the node reached by the names `q` from a node with path `p`.
pub open spec fn path_of(p: Seq<char>, q: Seq<Seq<char>>) -> Seq<char>
    decreases q.len(),
{
    if q.len() == 0 {
        p
    } else {
        path_of(child_path(p, q[0]), q.drop_first())
    }
}

proof fn lemma_reach_path(v: NodeView, q: Seq<Seq<char>>)
    requires
        linked(v),
        reaches(v, q) is Some,
    ensures
        (reaches(v, q)->0).path == path_of(v.path, q),
    decreases q.len(),
{
    if q.len() > 0 {
        let k = child_named(v.children, q[0], 0);
        lemma_child_named(v.children, q[0], 0);
        let c = v.children[k];
        assert(c.path == child_path(v.path, c.name));
        lemma_reach_path(c, q.drop_first());
    }
}

/// Each part, in order, preceded by a '/'.
pub open spec fn slash_joined(q: Seq<Seq<char>>) -> Seq<char>
    decreases q.len(),
{
    if q.len() == 0 {
        Seq::<char>::empty()
    } else {
        seq!['/'] + q[0] + slash_joined(q.drop_first())
    }
}

proof fn lemma_path_of_slash(p: Seq<char>, q: Seq<Seq<char>>)
    requires
        p.len() > 0,
    ensures
        path_of(p, q) == p + slash_joined(q),
    decreases q.len(),
{
    if q.len() > 0 {
        let p2 = child_path(p, q[0]);
        assert(p2 == p + seq!['/'] + q[0]);
        lemma_path_of_slash(p2, q.drop_first());
        assert(p2 + slash_joined(q.drop_first()) =~= p + (seq!['/'] + q[0] + slash_joined(q.drop_first())));
    } else {
        assert(p + Seq::<char>::empty() =~= p);
    }
}

proof fn lemma_slash_push(q: Seq<Seq<char>>, x: Seq<char>)
    ensures
        slash_joined(q.push(x)) == slash_joined(q) + seq!['/'] + x,
    decreases q.len(),
{
    let r = q.push(x);
    if q.len() == 0 {
        assert(r.drop_first() =~= Seq::<Seq<char>>::empty());
        assert(r[0] == x);
        assert(slash_joined(r) == seq!['/'] + r[0] + slash_joined(r.drop_first()));
        assert(slash_joined(q) =~= Seq::<char>::empty());
        assert(slash_joined(r) =~= slash_joined(q) + seq!['/'] + x);
    } else {
        assert(r.drop_first() =~= q.drop_first().push(x));
        assert(r[0] == q[0]);
        lemma_slash_push(q.drop_first(), x);
        assert(slash_joined(r) == seq!['/'] + r[0] + slash_joined(r.drop_first()));
        assert(slash_joined(q) == seq!['/'] + q[0] + slash_joined(q.drop_first()));
        assert(slash_joined(r) =~= slash_joined(q) + seq!['/'] + x);
    }
}

proof fn lemma_slash_extend(q: Seq<Seq<char>>, ch: char)
    requires
        q.len() > 0,
    ensures
        slash_joined(q.update(q.len() - 1, q.last().push(ch))) == slash_joined(q).push(ch),
    decreases q.len(),
{
    let u = q.update(q.len() - 1, q.last().push(ch));
    if q.len() == 1 {
        assert(u.drop_first() =~= Seq::<Seq<char>>::empty());
        assert(q.drop_first() =~= Seq::<Seq<char>>::empty());
        assert(slash_joined(u) == seq!['/'] + u[0] + slash_joined(u.drop_first()));
        assert(slash_joined(q) == seq!['/'] + q[0] + slash_joined(q.drop_first()));
        assert(slash_joined(u) =~= slash_joined(q).push(ch));
    } else {
        let d = q.drop_first();
        assert(u[0] == q[0]);
        assert(u.drop_first() =~= d.update(d.len() - 1, d.last().push(ch)));
        lemma_slash_extend(d, ch);
        assert(slash_joined(u) == seq!['/'] + u[0] + slash_joined(u.drop_first()));
        assert(slash_joined(q) == seq!['/'] + q[0] + slash_joined(q.drop_first()));
        assert(slash_joined(u) =~= slash_joined(q).push(ch));
    }
}

proof fn lemma_split_rejoins(s: Seq<char>)
    ensures
        split_on(s, '/')[0] + slash_joined(split_on(s, '/').drop_first()) == s,
    decreases s.len(),
{
    lemma_split_nonempty(s, '/');
    let sp = split_on(s, '/');
    if s.len() == 0 {
        assert(sp.drop_first() =~= Seq::<Seq<char>>::empty());
        assert(sp[0] + Seq::<char>::empty() =~= s);
    } else {
        let t = s.drop_last();
        let r = split_on(t, '/');
        lemma_split_nonempty(t, '/');
        lemma_split_rejoins(t);
        if s.last() == '/' {
            assert(sp == r.push(Seq::<char>::empty()));
            assert(sp[0] == r[0]);
            assert(sp.drop_first() =~= r.drop_first().push(Seq::<char>::empty()));
            lemma_slash_push(r.drop_first(), Seq::<char>::empty());
            assert(sp[0] + slash_joined(sp.drop_first()) =~= t.push('/'));
            assert(t.push('/') =~= s);
        } else {
            let ch = s.last();
            assert(sp == r.update(r.len() - 1, r.last().push(ch)));
            if r.len() == 1 {
                assert(r.drop_first() =~= Seq::<Seq<char>>::empty());
                assert(sp.drop_first() =~= Seq::<Seq<char>>::empty());
                assert(r[0] + Seq::<char>::empty() =~= r[0]);
                assert(sp[0] + Seq::<char>::empty() =~= s);
            } else {
                let d = r.drop_first();
                assert(sp[0] == r[0]);
                assert(sp.drop_first() =~= d.update(d.len() - 1, d.last().push(ch)));
                lemma_slash_extend(d, ch);
                assert(sp[0] + slash_joined(sp.drop_first()) =~= (r[0] + slash_joined(d)).push(ch));
                assert(t.push(ch) =~= s);
            }
        }
    }
}

/// `f` is in `t` at the place its name gives: following the parts of the
/// name leads to a file node whose path is the name and whose size is
/// `f`'s.
pub open spec fn holds_file(t: NodeView, f: RepoFile) -> bool {
    reaches(t, parts_of(f)) matches Some(w) && !w.is_dir && w.size == f.size && w.path == f.rfilename@
}

/// Every file of a listing that forms a tree (see [`listing_is_tree`]) is
/// in the built, sorted and sized tree at the place its name gives, as a
/// file node with its name as path and its size.
pub proof fn law_built_tree_holds_every_file(files: Seq<RepoFile>)
    requires
        vtotal(built(files)) <= u64::MAX,
        forall|i: int| 0 <= i < files.len() ==> split_on(#[trigger] files[i].rfilename@, '/').len() <= usize::MAX,
        listing_is_tree(files),
    ensures
        forall|i: int| 0 <= i < files.len() ==> holds_file(vsized(sort_tree(built(files))), #[trigger] files[i]),
{
    let b = built(files);
    let sb = sort_tree(b);
    let t = vsized(sb);
    law_built_tree_well_shaped(files);
    lemma_built_finds(files);
    lemma_built_distinct(files);
    assert forall|i: int| 0 <= i < files.len() implies holds_file(t, #[trigger] files[i]) by {
        let f = files[i];
        let q = parts_of(f);
        assert(found_file(b, f));
        lemma_sort_reach(b, q);
        lemma_vsized_reach(sb, q);
        lemma_reach_path(t, q);
        lemma_split_nonempty(f.rfilename@, '/');
        assert(q[0].len() > 0);
        assert(path_of(t.path, q) == path_of(q[0], q.drop_first()));
        lemma_path_of_slash(q[0], q.drop_first());
        lemma_split_rejoins(f.rfilename@);
    }
}

proof fn lemma_reach_inserted_kind(v: NodeView, p: Seq<Seq<char>>, d: nat, size: Option<u64>, q: Seq<Seq<char>>)
    requires
        reaches(inserted(v, p, d, size), q) is Some,
    ensures
        ({
            let w = reaches(inserted(v, p, d, size), q)->0;
            ||| reaches(v, q) is Some && (reaches(v, q)->0).is_dir == w.is_dir
            ||| parts_prefix(q, p) && (!w.is_dir ==> q.len() == p.len())
        }),
    decreases q.len(),
{
    lemma_inserted_keeps_root(v, p, d, size);
    if q.len() > 0 && p.len() > 0 {
        let p0 = p[0];
        let last = p.len() == 1;
        let pos = child_named(v.children, p0, 0);
        let c = if pos >= 0 { v.children[pos] } else { new_child(v, p0, last, d, size) };
        let c2 = if last { c } else { inserted(c, p.drop_first(), d + 1, size) };
        let r = inserted(v, p, d, size);
        let n = v.children.len() as int;
        let idx = if pos >= 0 { pos } else { n };
        lemma_inserted_finds(v, p, d, size);
        assert(r.children[idx] == c2);
        if q[0] != p0 {
            assert forall|i: int| 0 <= i < v.children.len() implies #[trigger] r.children[i] == v.children[i] || (
            v.children[i].name == p0 && r.children[i].name == p0) by {
                if i == idx {
                    lemma_child_named(v.children, p0, 0);
                }
            }
            lemma_child_named_kept(v.children, r.children, p0, q[0]);
        } else {
            assert(reaches(r, q) == reaches(c2, q.drop_first()));
            if last {
                if pos < 0 {
                    assert(c2.children.len() == 0);
                    assert(q.drop_first().len() == 0);
                    assert(p.take(q.len() as int) =~= q);
                }
            } else {
                lemma_reach_inserted_kind(c, p.drop_first(), d + 1, size, q.drop_first());
                let w = reaches(c2, q.drop_first())->0;
                if parts_prefix(q.drop_first(), p.drop_first()) && (!w.is_dir ==> q.len() - 1 == p.len() - 1) {
                    lemma_prefix_cons(q, p);
                } else if pos < 0 {
                    assert(c.children.len() == 0);
                    assert(q.drop_first().len() == 0);
                    assert(reaches(c, q.drop_first()) == Some(c));
                    assert(c.is_dir);
                    assert(p.take(q.len() as int) =~= q);
                }
            }
        }
    }
}

proof fn lemma_built_file_nodes(files: Seq<RepoFile>, q: Seq<Seq<char>>)
    requires
        reaches(built(files), q) matches Some(w) && !w.is_dir,
    ensures
        exists|i: int| 0 <= i < files.len() && parts_of(#[trigger] files[i]) == q,
    decreases files.len(),
{
    if files.len() == 0 {
        assert(built(files).children.len() == 0);
    } else {
        let n = files.len() - 1;
        let prev = files.drop_last();
        let f = files.last();
        assert(files[n] == f);
        let pf = parts_of(f);
        lemma_reach_inserted_kind(built(prev), pf, 0, f.size, q);
        let w = reaches(built(files), q)->0;
        if reaches(built(prev), q) is Some && (reaches(built(prev), q)->0).is_dir == w.is_dir {
            lemma_built_file_nodes(prev, q);
            let j = choose|j: int| 0 <= j < prev.len() && parts_of(#[trigger] prev[j]) == q;
            assert(files[j] == prev[j]);
        } else {
            assert(pf.take(q.len() as int) =~= pf);
            assert(parts_of(files[n]) == q);
        }
    }
}

proof fn lemma_sort_reach_back(v: NodeView, q: Seq<Seq<char>>)
    requires
        distinct_below(v),
        reaches(sort_tree(v), q) is Some,
    ensures
        reaches(v, q) is Some,
    decreases q.len(),
{
    if q.len() > 0 {
        let q0 = q[0];
        let cs = v.children;
        lemma_sort_trees_index(cs);
        let st = sort_trees(cs);
        lemma_stable_sort_members(st);
        let srt = stable_sort(st);
        assert(sort_tree(v).children == srt);
        let m = child_named(srt, q0, 0);
        lemma_child_named(srt, q0, 0);
        let k2 = choose|k: int| 0 <= k < st.len() && st[k] == srt[m];
        assert(st[k2] == sort_tree(cs[k2]));
        assert(cs[k2].name == q0);
        let k = child_named(cs, q0, 0);
        lemma_child_named(cs, q0, 0);
        if k != k2 {
            assert(names_distinct(cs));
        }
        assert(distinct_below(cs[k]));
        lemma_sort_reach_back(cs[k], q.drop_first());
    }
}

proof fn lemma_vsized_reach_back(v: NodeView, q: Seq<Seq<char>>)
    requires
        reaches(vsized(v), q) is Some,
    ensures
        reaches(v, q) is Some,
    decreases q.len(),
{
    if q.len() > 0 && v.is_dir {
        let q0 = q[0];
        let cs = v.children;
        lemma_vsized_index(cs);
        let vs = vsized_all(cs);
        let k = child_named(cs, q0, 0);
        lemma_child_named(cs, q0, 0);
        lemma_child_named(vs, q0, 0);
        if k >= 0 {
            assert forall|i: int| 0 <= i < k implies (#[trigger] vs[i]).name != q0 by {
                assert(vs[i] == vsized(cs[i]));
            }
            assert(vs[k] == vsized(cs[k]));
            lemma_child_named_is(vs, q0, k);
            lemma_vsized_reach_back(cs[k], q.drop_first());
        } else {
            let j = child_named(vs, q0, 0);
            assert(vs[j] == vsized(cs[j]));
        }
    }
}

/// The names `q` lead from `t` to a file node.
pub open spec fn file_node_at(t: NodeView, q: Seq<Seq<char>>) -> bool {
    reaches(t, q) matches Some(w) && !w.is_dir
}

/// Conversely, every file node that the names `q` reach in the built,
/// sorted and sized tree stands for a listed file: `q` is the parts of
/// that file's name.
pub proof fn law_built_tree_files_are_listed(files: Seq<RepoFile>, q: Seq<Seq<char>>)
    requires
        file_node_at(vsized(sort_tree(built(files))), q),
    ensures
        exists|i: int| 0 <= i < files.len() && parts_of(#[trigger] files[i]) == q,
{
    let b = built(files);
    let sb = sort_tree(b);
    lemma_built_distinct(files);
    lemma_vsized_reach_back(sb, q);
    lemma_vsized_reach(sb, q);
    lemma_sort_reach_back(b, q);
    lemma_sort_reach(b, q);
    lemma_built_file_nodes(files, q);
}

} // verus!
