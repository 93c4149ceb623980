//! Model search: the query URL, and the filtering and ordering that the
//! Hub's search leaves to the client.

use crate::models::{ModelInfo, SortDirection, SortField};
use crate::text::{decimal, str_to_lowercase, to_chars, unicode_lower};
use crate::tree::{lex_less, lex_lt};
use vstd::prelude::*;
use vstd::multiset::Multiset;
use vstd::utf8::encode_utf8;

verus! {

// ---------------------------------------------------------------------------
// The query URL
// ---------------------------------------------------------------------------

/// A byte that percent-encoding leaves as it is: an ASCII letter or digit,
/// `-`, `.`, `_` or `~`.
pub open spec fn unreserved(b: u8) -> bool {
    (48 <= b <= 57) || (65 <= b <= 90) || (97 <= b <= 122) || b == 45 || b == 46 || b == 95 || b == 126
}

/// The upper-case hex digit of `d` (below 16).
pub open spec fn hex_char(d: nat) -> char {
    if d < 10 {
        (d + 48) as char
    } else {
        (d + 55) as char
    }
}

/// `bytes` percent-encoded: unreserved bytes as their character, every
/// other byte as `%` and two upper-case hex digits.
pub open spec fn percent_encoded(bytes: Seq<u8>) -> Seq<char>
    decreases bytes.len(),
{
    if bytes.len() == 0 {
        Seq::<char>::empty()
    } else {
        let b = bytes[0];
        (if unreserved(b) {
            seq![b as char]
        } else {
            seq!['%', hex_char(b as nat / 16), hex_char(b as nat % 16)]
        }) + percent_encoded(bytes.drop_first())
    }
}

/// `s` URL-encoded: its UTF-8 bytes percent-encoded.
pub open spec fn url_encoded(s: Seq<char>) -> Seq<char> {
    percent_encoded(encode_utf8(s))
}

/// `urlencoding::encode`: the crate percent-encodes every byte of the
/// UTF-8 form except ASCII letters, digits and `-` `.` `_` `~`, with
/// upper-case hex digits (its `encode_into` and `to_hex_digit`).
#[verifier::external_body]
fn url_encode(s: &str) -> (r: String)
    ensures
        r@ == url_encoded(s@),
{
    urlencoding::encode(s).into_owned()
}

/// The sort key that the search asks the Hub for; a sort by name asks for
/// downloads and is done here.
pub open spec fn sort_key(f: SortField) -> Seq<char> {
    match f {
        SortField::Downloads => "downloads"@,
        SortField::Likes => "likes"@,
        SortField::Modified => "lastModified"@,
        SortField::Name => "downloads"@,
    }
}

/// `limit` within 1..=500.
pub open spec fn clamped_limit(limit: nat) -> nat {
    if limit < 1 {
        1
    } else if limit > 500 {
        500
    } else {
        limit
    }
}

/// The search request: the query URL-encoded, the limit clamped, the sort
/// key, always descending, with full metadata.
pub open spec fn search_url_text(base: Seq<char>, query: Seq<char>, f: SortField, limit: nat) -> Seq<char> {
    base + "/api/models?search="@ + url_encoded(query) + "&limit="@ + decimal(clamped_limit(limit)) + "&sort="@
        + sort_key(f) + "&direction=-1&full=true"@
}

/// The URL that searches the Hub at `base` for `query`.
pub fn search_url(base: &str, query: &str, sort_field: SortField, limit: usize) -> (r: String)
    ensures
        r@ == search_url_text(base@, query@, sort_field, limit as nat),
{
    let mut out = String::from_str(base);
    out.append("/api/models?search=");
    let q = url_encode(query);
    out.append(q.as_str());
    out.append("&limit=");
    let l: usize = if limit < 1 {
        1
    } else if limit > 500 {
        500
    } else {
        limit
    };
    let d = crate::text::decimal_string(l as u64);
    out.append(d.as_str());
    out.append("&sort=");
    match sort_field {
        SortField::Downloads => out.append("downloads"),
        SortField::Likes => out.append("likes"),
        SortField::Modified => out.append("lastModified"),
        SortField::Name => out.append("downloads"),
    }
    out.append("&direction=-1&full=true");
    out
}

// ---------------------------------------------------------------------------
// Filtering and ordering
// ---------------------------------------------------------------------------

/// The model has at least the minimum downloads and likes.
pub open spec fn meets_minimums(m: ModelInfo, min_downloads: u64, min_likes: u64) -> bool {
    m.downloads >= min_downloads && m.likes >= min_likes
}

/// The models that meet the minimums, in their order.
pub open spec fn kept_models(s: Seq<ModelInfo>, min_downloads: u64, min_likes: u64) -> Seq<ModelInfo>
    decreases s.len(),
{
    if s.len() == 0 {
        s
    } else if meets_minimums(s.last(), min_downloads, min_likes) {
        kept_models(s.drop_last(), min_downloads, min_likes).push(s.last())
    } else {
        kept_models(s.drop_last(), min_downloads, min_likes)
    }
}

/// Modification times in `Option` order: none first, then by text.
pub open spec fn modified_lt(a: Option<String>, b: Option<String>) -> bool {
    match (a, b) {
        (None, Some(_)) => true,
        (Some(x), Some(y)) => lex_lt(x@, y@),
        _ => false,
    }
}

/// `a`'s key is smaller than `b`'s for the field: the lowercased id for
/// the name, the counts, or the modification time.
pub open spec fn key_less(a: ModelInfo, b: ModelInfo, f: SortField) -> bool {
    match f {
        SortField::Name => lex_lt(unicode_lower(a.id@), unicode_lower(b.id@)),
        SortField::Downloads => a.downloads < b.downloads,
        SortField::Likes => a.likes < b.likes,
        SortField::Modified => modified_lt(a.last_modified, b.last_modified),
    }
}

/// `a` comes before `b` in the chosen order.
pub open spec fn model_before(a: ModelInfo, b: ModelInfo, f: SortField, d: SortDirection) -> bool {
    match d {
        SortDirection::Ascending => key_less(a, b, f),
        SortDirection::Descending => key_less(b, a, f),
    }
}

/// `x` inserted into `s` after every model it does not come before.
pub open spec fn insert_model(s: Seq<ModelInfo>, x: ModelInfo, f: SortField, d: SortDirection) -> Seq<ModelInfo>
    decreases s.len(),
{
    if s.len() == 0 {
        seq![x]
    } else if model_before(x, s.last(), f, d) {
        insert_model(s.drop_last(), x, f, d).push(s.last())
    } else {
        s.push(x)
    }
}

/// `s` in the chosen order, models with equal keys keeping their order (a
/// stable sort).
pub open spec fn sorted_models(s: Seq<ModelInfo>, f: SortField, d: SortDirection) -> Seq<ModelInfo>
    decreases s.len(),
{
    if s.len() == 0 {
        s
    } else {
        insert_model(sorted_models(s.drop_last(), f, d), s.last(), f, d)
    }
}

/// The order needs sorting here: the Hub sorts descending by a count or
/// date itself.
pub open spec fn sorted_here(f: SortField, d: SortDirection) -> bool {
    f == SortField::Name || d == SortDirection::Ascending
}

/// What a search shows of the Hub's answer `s`: the models that meet the
/// minimums, sorted here when the Hub could not sort them.
pub open spec fn search_results(s: Seq<ModelInfo>, f: SortField, d: SortDirection, min_downloads: u64, min_likes: u64) -> Seq<ModelInfo> {
    if sorted_here(f, d) {
        sorted_models(kept_models(s, min_downloads, min_likes), f, d)
    } else {
        kept_models(s, min_downloads, min_likes)
    }
}

fn modified_less(a: &Option<String>, b: &Option<String>) -> (r: bool)
    ensures
        r == modified_lt(*a, *b),
{
    match (a, b) {
        (None, Some(_)) => true,
        (Some(x), Some(y)) => {
            let xc = to_chars(x.as_str());
            let yc = to_chars(y.as_str());
            lex_less(xc.as_slice(), yc.as_slice())
        },
        _ => false,
    }
}

fn key_before(a: &ModelInfo, b: &ModelInfo, f: SortField) -> (r: bool)
    ensures
        r == key_less(*a, *b, f),
{
    match f {
        SortField::Name => {
            let la = str_to_lowercase(a.id.as_str());
            let lb = str_to_lowercase(b.id.as_str());
            let ca = to_chars(la.as_str());
            let cb = to_chars(lb.as_str());
            lex_less(ca.as_slice(), cb.as_slice())
        },
        SortField::Downloads => a.downloads < b.downloads,
        SortField::Likes => a.likes < b.likes,
        SortField::Modified => modified_less(&a.last_modified, &b.last_modified),
    }
}

fn comes_before(a: &ModelInfo, b: &ModelInfo, f: SortField, d: SortDirection) -> (r: bool)
    ensures
        r == model_before(*a, *b, f, d),
{
    match d {
        SortDirection::Ascending => key_before(a, b, f),
        SortDirection::Descending => key_before(b, a, f),
    }
}

fn insert_in_order(out: &mut Vec<ModelInfo>, x: ModelInfo, f: SortField, d: SortDirection)
    ensures
        final(out)@ == insert_model(old(out)@, x, f, d),
{
    let ghost ov = out@;
    proof {
        assert(ov.take(ov.len() as int) =~= ov);
        assert(ov.skip(ov.len() as int) =~= Seq::<ModelInfo>::empty());
        assert(insert_model(ov, x, f, d) =~= insert_model(ov.take(ov.len() as int), x, f, d) + ov.skip(ov.len() as int));
    }
    let mut p: usize = out.len();
    while p > 0 && comes_before(&x, &out[p - 1], f, d)
        invariant
            p <= out@.len(),
            ov == out@,
            insert_model(ov, x, f, d) == insert_model(ov.take(p as int), x, f, d) + ov.skip(p as int),
        decreases p,
    {
        proof {
            let t = ov.take(p as int);
            assert(t.last() == ov[p - 1]);
            assert(t.drop_last() =~= ov.take(p - 1));
            assert(insert_model(ov.take(p - 1), x, f, d).push(ov[p - 1]) + ov.skip(p as int) =~= insert_model(
                ov.take(p - 1),
                x,
                f,
                d,
            ) + ov.skip(p - 1));
        }
        p -= 1;
    }
    proof {
        let t = ov.take(p as int);
        if p == 0 {
            assert(insert_model(t, x, f, d) =~= seq![x]);
        } else {
            assert(t.last() == ov[p - 1]);
        }
        assert(insert_model(t, x, f, d) =~= ov.take(p as int).push(x));
    }
    out.insert(p, x);
    assert(out@ =~= ov.take(p as int).push(x) + ov.skip(p as int));
}

/// The models of `s` in the chosen order, equal keys keeping their order.
pub fn sort_models(s: Vec<ModelInfo>, f: SortField, d: SortDirection) -> (r: Vec<ModelInfo>)
    ensures
        r@ == sorted_models(s@, f, d),
{
    let ghost sv = s@;
    let mut rest = s;
    let mut out: Vec<ModelInfo> = Vec::new();
    let n = rest.len();
    let mut i: usize = 0;
    assert(out@ =~= sorted_models(sv.take(0), f, d));
    while i < n
        invariant
            i <= n,
            n == sv.len(),
            rest@ == sv.skip(i as int),
            out@ == sorted_models(sv.take(i as int), f, d),
        decreases n - i,
    {
        let x = rest.remove(0);
        proof {
            assert(x == sv[i as int]);
            assert(rest@ =~= sv.skip(i + 1));
            assert(sv.take(i + 1).drop_last() =~= sv.take(i as int));
            assert(sv.take(i + 1).last() == x);
        }
        insert_in_order(&mut out, x, f, d);
        i += 1;
    }
    assert(sv.take(n as int) =~= sv);
    out
}

/// The models of `s` that meet the minimums, in their order.
pub fn keep_models(s: Vec<ModelInfo>, min_downloads: u64, min_likes: u64) -> (r: Vec<ModelInfo>)
    ensures
        r@ == kept_models(s@, min_downloads, min_likes),
{
    let ghost sv = s@;
    let mut rest = s;
    let mut out: Vec<ModelInfo> = Vec::new();
    let n = rest.len();
    let mut i: usize = 0;
    while i < n
        invariant
            i <= n,
            n == sv.len(),
            rest@ == sv.skip(i as int),
            out@ == kept_models(sv.take(i as int), min_downloads, min_likes),
        decreases n - i,
    {
        let x = rest.remove(0);
        proof {
            assert(x == sv[i as int]);
            assert(rest@ =~= sv.skip(i + 1));
            assert(sv.take(i + 1).drop_last() =~= sv.take(i as int));
            assert(sv.take(i + 1).last() == x);
        }
        if x.downloads >= min_downloads && x.likes >= min_likes {
            out.push(x);
        }
        i += 1;
    }
    assert(sv.take(n as int) =~= sv);
    out
}

/// What a search shows of the Hub's answer: the models that meet both
/// minimums, sorted here (stably) when the order is by name or ascending,
/// else in the Hub's order.
pub fn filter_and_sort_models(
    models: Vec<ModelInfo>,
    sort_field: SortField,
    sort_direction: SortDirection,
    min_downloads: u64,
    min_likes: u64,
) -> (r: Vec<ModelInfo>)
    ensures
        r@ == search_results(models@, sort_field, sort_direction, min_downloads, min_likes),
{
    let kept = keep_models(models, min_downloads, min_likes);
    if sort_field == SortField::Name || sort_direction == SortDirection::Ascending {
        sort_models(kept, sort_field, sort_direction)
    } else {
        kept
    }
}

// ---------------------------------------------------------------------------
// The order is a strict weak order
// ---------------------------------------------------------------------------

/// No element comes after a later one.
pub open spec fn in_order(s: Seq<ModelInfo>, f: SortField, d: SortDirection) -> bool {
    forall|i: int, j: int| 0 <= i < j < s.len() ==> !model_before(#[trigger] s[j], #[trigger] s[i], f, d)
}

pub proof fn lemma_lex_asym(a: Seq<char>, b: Seq<char>)
    ensures
        lex_lt(a, b) ==> !lex_lt(b, a),
    decreases a.len(),
{
    if a.len() > 0 && b.len() > 0 && a[0] == b[0] {
        lemma_lex_asym(a.drop_first(), b.drop_first());
    }
}

pub proof fn lemma_lex_total(a: Seq<char>, b: Seq<char>)
    ensures
        !lex_lt(a, b) && !lex_lt(b, a) ==> a == b,
    decreases a.len(),
{
    if a.len() > 0 && b.len() > 0 && a[0] == b[0] {
        lemma_lex_total(a.drop_first(), b.drop_first());
        if !lex_lt(a, b) && !lex_lt(b, a) {
            assert(a =~= seq![a[0]] + a.drop_first());
            assert(b =~= seq![b[0]] + b.drop_first());
        }
    } else if a.len() == 0 && b.len() == 0 {
        assert(a =~= b);
    }
}

pub proof fn lemma_lex_trans(a: Seq<char>, b: Seq<char>, c: Seq<char>)
    ensures
        lex_lt(a, b) && lex_lt(b, c) ==> lex_lt(a, c),
    decreases a.len(),
{
    if a.len() > 0 && b.len() > 0 && c.len() > 0 && a[0] == b[0] && b[0] == c[0] {
        lemma_lex_trans(a.drop_first(), b.drop_first(), c.drop_first());
    }
}

/// Not-after is transitive for text order.
pub proof fn lemma_lex_negtrans(a: Seq<char>, b: Seq<char>, c: Seq<char>)
    ensures
        !lex_lt(b, a) && !lex_lt(c, b) ==> !lex_lt(c, a),
{
    lemma_lex_total(a, b);
    lemma_lex_trans(c, a, b);
}

proof fn lemma_key_order(a: ModelInfo, b: ModelInfo, c: ModelInfo, f: SortField)
    ensures
        key_less(a, b, f) ==> !key_less(b, a, f),
        !key_less(b, a, f) && !key_less(c, b, f) ==> !key_less(c, a, f),
{
    match f {
        SortField::Name => {
            lemma_lex_asym(unicode_lower(a.id@), unicode_lower(b.id@));
            lemma_lex_negtrans(unicode_lower(a.id@), unicode_lower(b.id@), unicode_lower(c.id@));
        },
        SortField::Modified => {
            match (a.last_modified, b.last_modified, c.last_modified) {
                (Some(x), Some(y), Some(z)) => {
                    lemma_lex_asym(x@, y@);
                    lemma_lex_negtrans(x@, y@, z@);
                },
                (Some(x), Some(y), None) => {
                    lemma_lex_asym(x@, y@);
                },
                _ => {},
            }
        },
        _ => {},
    }
}

/// The order in which models come is asymmetric, and "not after" is
/// transitive (a strict weak order).
pub proof fn lemma_before_order(a: ModelInfo, b: ModelInfo, c: ModelInfo, f: SortField, d: SortDirection)
    ensures
        model_before(a, b, f, d) ==> !model_before(b, a, f, d),
        !model_before(b, a, f, d) && !model_before(c, b, f, d) ==> !model_before(c, a, f, d),
{
    lemma_key_order(a, b, c, f);
    lemma_key_order(c, b, a, f);
}

proof fn lemma_insert_contents(s: Seq<ModelInfo>, x: ModelInfo, f: SortField, d: SortDirection)
    ensures
        insert_model(s, x, f, d).len() == s.len() + 1,
        insert_model(s, x, f, d).to_multiset() == s.to_multiset().insert(x),
        forall|k: int| 0 <= k < insert_model(s, x, f, d).len() ==> (#[trigger] insert_model(s, x, f, d)[k] == x
            || s.contains(insert_model(s, x, f, d)[k])),
    decreases s.len(),
{
    broadcast use vstd::seq_lib::group_to_multiset_ensures;
    if s.len() > 0 {
        let t = s.drop_last();
        lemma_insert_contents(t, x, f, d);
        assert(s =~= t.push(s.last()));
        if model_before(x, s.last(), f, d) {
            let r = insert_model(t, x, f, d);
            assert forall|k: int| 0 <= k < r.push(s.last()).len() implies #[trigger] r.push(s.last())[k] == x || s.contains(
                r.push(s.last())[k],
            ) by {
                if k < r.len() {
                    if r[k] != x {
                        let j = choose|j: int| 0 <= j < t.len() && t[j] == r[k];
                        assert(s[j] == t[j]);
                    }
                } else {
                    assert(s[s.len() - 1] == s.last());
                }
            }
        } else {
            assert forall|k: int| 0 <= k < s.push(x).len() implies #[trigger] s.push(x)[k] == x || s.contains(s.push(x)[k]) by {
                if k < s.len() {
                    assert(s.push(x)[k] == s[k]);
                }
            }
        }
    } else {
        assert(insert_model(s, x, f, d) =~= seq![x]);
        assert(seq![x] =~= Seq::<ModelInfo>::empty().push(x));
    }
}

proof fn lemma_insert_in_order(s: Seq<ModelInfo>, x: ModelInfo, f: SortField, d: SortDirection)
    requires
        in_order(s, f, d),
    ensures
        in_order(insert_model(s, x, f, d), f, d),
    decreases s.len(),
{
    if s.len() > 0 {
        let t = s.drop_last();
        let l = s.last();
        assert(in_order(t, f, d)) by {
            assert forall|i: int, j: int| 0 <= i < j < t.len() implies !model_before(#[trigger] t[j], #[trigger] t[i], f, d) by {
                assert(t[i] == s[i] && t[j] == s[j]);
            }
        }
        if model_before(x, l, f, d) {
            lemma_insert_in_order(t, x, f, d);
            lemma_insert_contents(t, x, f, d);
            let r = insert_model(t, x, f, d);
            assert forall|i: int, j: int| 0 <= i < j < r.push(l).len() implies !model_before(
                #[trigger] r.push(l)[j],
                #[trigger] r.push(l)[i],
                f,
                d,
            ) by {
                if j < r.len() {
                    assert(r.push(l)[j] == r[j] && r.push(l)[i] == r[i]);
                } else {
                    assert(r.push(l)[j] == l);
                    assert(r.push(l)[i] == r[i]);
                    if r[i] == x {
                        lemma_before_order(x, l, l, f, d);
                    } else {
                        assert(t.contains(r[i]));
                        let k = choose|k: int| 0 <= k < t.len() && t[k] == r[i];
                        assert(s[k] == t[k] && s[s.len() - 1] == l);
                    }
                }
            }
        } else {
            assert forall|i: int, j: int| 0 <= i < j < s.push(x).len() implies !model_before(
                #[trigger] s.push(x)[j],
                #[trigger] s.push(x)[i],
                f,
                d,
            ) by {
                if j < s.len() {
                    assert(s.push(x)[j] == s[j] && s.push(x)[i] == s[i]);
                } else {
                    assert(s.push(x)[i] == s[i]);
                    if i < s.len() - 1 {
                        assert(s[s.len() - 1] == l);
                        lemma_before_order(s[i], l, x, f, d);
                    }
                }
            }
        }
    }
}

/// The sorted models come in order and are the same models.
pub proof fn lemma_sorted_models(s: Seq<ModelInfo>, f: SortField, d: SortDirection)
    ensures
        in_order(sorted_models(s, f, d), f, d),
        sorted_models(s, f, d).to_multiset() == s.to_multiset(),
    decreases s.len(),
{
    broadcast use vstd::seq_lib::group_to_multiset_ensures;
    if s.len() > 0 {
        lemma_sorted_models(s.drop_last(), f, d);
        lemma_insert_in_order(sorted_models(s.drop_last(), f, d), s.last(), f, d);
        lemma_insert_contents(sorted_models(s.drop_last(), f, d), s.last(), f, d);
        assert(s =~= s.drop_last().push(s.last()));
    } else {
        assert(s.to_multiset() =~= Multiset::empty());
    }
}

/// Every kept model meets the minimums, and every model that meets them
/// is kept.
pub proof fn lemma_kept_models(s: Seq<ModelInfo>, min_downloads: u64, min_likes: u64)
    ensures
        forall|k: int| 0 <= k < kept_models(s, min_downloads, min_likes).len() ==> meets_minimums(
            #[trigger] kept_models(s, min_downloads, min_likes)[k],
            min_downloads,
            min_likes,
        ),
        forall|m: ModelInfo| #[trigger] kept_models(s, min_downloads, min_likes).to_multiset().count(m) == if meets_minimums(
            m,
            min_downloads,
            min_likes,
        ) {
            s.to_multiset().count(m)
        } else {
            0
        },
    decreases s.len(),
{
    broadcast use vstd::seq_lib::group_to_multiset_ensures;
    if s.len() > 0 {
        lemma_kept_models(s.drop_last(), min_downloads, min_likes);
        assert(s =~= s.drop_last().push(s.last()));
        let t = kept_models(s.drop_last(), min_downloads, min_likes);
        if meets_minimums(s.last(), min_downloads, min_likes) {
            assert forall|k: int| 0 <= k < t.push(s.last()).len() implies meets_minimums(
                #[trigger] t.push(s.last())[k],
                min_downloads,
                min_likes,
            ) by {
                if k < t.len() {
                    assert(t.push(s.last())[k] == t[k]);
                }
            }
        }
    } else {
        assert(s.to_multiset() =~= Multiset::empty());
    }
}

} // verus!
