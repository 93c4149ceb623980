//! Quantization naming: recognizing quantization tokens such as `Q4_K_M`
//! in GGUF file and directory names, and stripping multipart suffixes.

use crate::text::{
    all_ascii, all_digits, chars_all_digits, contains_char, copy_all, copy_range, find, find_seq, from_chars,
    has_suffix, is_digit, lemma_find_contains, lemma_rfind_contains, lemma_split_nonempty,
    rfind, rfind_seq, ends_with, chars_eq_ignore_ascii_case, eq_ignore_ascii_case, split_chars, split_on, to_chars, trim_end_all, trim_end_matches,
    unicode_upper, upper_chars, char_is_digit, contains_seq, occurs_at,
};
use vstd::prelude::*;

verus! {

// ---------------------------------------------------------------------------
// Literal patterns
// ---------------------------------------------------------------------------

pub open spec fn pat_gguf() -> Seq<char> {
    seq!['.', 'g', 'g', 'u', 'f']
}

pub open spec fn pat_part() -> Seq<char> {
    seq!['.', 'p', 'a', 'r', 't']
}

pub open spec fn pat_of() -> Seq<char> {
    seq!['o', 'f']
}

pub open spec fn pat_dash_of() -> Seq<char> {
    seq!['-', 'o', 'f', '-']
}

pub open spec fn pat_gguf_part() -> Seq<char> {
    seq!['.', 'g', 'g', 'u', 'f', '.', 'p', 'a', 'r', 't']
}

fn lit_gguf() -> (r: Vec<char>)
    ensures
        r@ == pat_gguf(),
{
    let r = vec!['.', 'g', 'g', 'u', 'f'];
    assert(r@ =~= pat_gguf());
    r
}

fn lit_part() -> (r: Vec<char>)
    ensures
        r@ == pat_part(),
{
    let r = vec!['.', 'p', 'a', 'r', 't'];
    assert(r@ =~= pat_part());
    r
}

fn lit_of() -> (r: Vec<char>)
    ensures
        r@ == pat_of(),
{
    let r = vec!['o', 'f'];
    assert(r@ =~= pat_of());
    r
}

fn lit_dash_of() -> (r: Vec<char>)
    ensures
        r@ == pat_dash_of(),
{
    let r = vec!['-', 'o', 'f', '-'];
    assert(r@ =~= pat_dash_of());
    r
}

pub(crate) fn lit_gguf_part() -> (r: Vec<char>)
    ensures
        r@ == pat_gguf_part(),
{
    let r = vec!['.', 'g', 'g', 'u', 'f', '.', 'p', 'a', 'r', 't'];
    assert(r@ =~= pat_gguf_part());
    r
}

// ---------------------------------------------------------------------------
// Quantization tokens
// ---------------------------------------------------------------------------

/// An (already uppercased) name is a quantization token: `Q<digit>…`,
/// `IQ<digit>…`, `TQ<digit>…`, `MXFP<digit>` (optionally followed by one
/// `_` and nothing else, so `MXFP4_MOE` is not one), or exactly `BF16`,
/// `F16`, `FP16`, `FP32`.
pub open spec fn quant_token(u: Seq<char>) -> bool {
    ||| (u.len() > 1 && u[0] == 'Q' && is_digit(u[1]))
    ||| (u.len() > 2 && u[0] == 'I' && u[1] == 'Q' && is_digit(u[2]))
    ||| (u.len() > 2 && u[0] == 'T' && u[1] == 'Q' && is_digit(u[2]))
    ||| (u.len() > 4 && u[0] == 'M' && u[1] == 'X' && u[2] == 'F' && u[3] == 'P' && is_digit(u[4])
        && (!u.contains('_') || (u.len() == 6 && u[5] == '_')))
    ||| u =~= seq!['B', 'F', '1', '6']
    ||| u =~= seq!['F', '1', '6']
    ||| u =~= seq!['F', 'P', '1', '6']
    ||| u =~= seq!['F', 'P', '3', '2']
}

/// `s` looks like a quantization type once uppercased.
pub open spec fn looks_like_quant(s: Seq<char>) -> bool {
    quant_token(unicode_upper(s))
}

fn token_of_upper(u: &[char]) -> (r: bool)
    ensures
        r == quant_token(u@),
{
    let n = u.len();
    if n > 1 && u[0] == 'Q' && char_is_digit(u[1]) {
        return true;
    }
    if n > 2 && u[0] == 'I' && u[1] == 'Q' && char_is_digit(u[2]) {
        return true;
    }
    if n > 2 && u[0] == 'T' && u[1] == 'Q' && char_is_digit(u[2]) {
        return true;
    }
    if n > 4 && u[0] == 'M' && u[1] == 'X' && u[2] == 'F' && u[3] == 'P' && char_is_digit(u[4]) {
        if !contains_char(u, '_') || (n == 6 && u[5] == '_') {
            return true;
        }
    }
    if n == 4 && u[0] == 'B' && u[1] == 'F' && u[2] == '1' && u[3] == '6' {
        assert(u@ =~= seq!['B', 'F', '1', '6']);
        return true;
    }
    if n == 3 && u[0] == 'F' && u[1] == '1' && u[2] == '6' {
        assert(u@ =~= seq!['F', '1', '6']);
        return true;
    }
    if n == 4 && u[0] == 'F' && u[1] == 'P' && u[2] == '1' && u[3] == '6' {
        assert(u@ =~= seq!['F', 'P', '1', '6']);
        return true;
    }
    if n == 4 && u[0] == 'F' && u[1] == 'P' && u[2] == '3' && u[3] == '2' {
        assert(u@ =~= seq!['F', 'P', '3', '2']);
        return true;
    }
    proof {
        if u@ =~= seq!['B', 'F', '1', '6'] {
            assert(u@[0] == 'B');
        }
        if u@ =~= seq!['F', '1', '6'] {
            assert(u@[0] == 'F');
        }
        if u@ =~= seq!['F', 'P', '1', '6'] {
            assert(u@[2] == '1');
        }
        if u@ =~= seq!['F', 'P', '3', '2'] {
            assert(u@[2] == '3');
        }
    }
    false
}

/// Whether the characters `s` look like a quantization type.
pub fn looks_like_quant_chars(s: &[char]) -> (r: bool)
    ensures
        r == looks_like_quant(s@),
{
    let up = upper_chars(s);
    token_of_upper(up.as_slice())
}

/// Does `s` look like a quantization type (`Q4_K_M`, `IQ4_XS`, `TQ1_0`,
/// `MXFP4`, `BF16`, `F16`, `FP16`, `FP32`), ignoring case?
pub fn looks_like_quant_type(s: &str) -> (r: bool)
    ensures
        r == looks_like_quant(s@),
{
    let cs = to_chars(s);
    looks_like_quant_chars(cs.as_slice())
}

// ---------------------------------------------------------------------------
// Multipart names
// ---------------------------------------------------------------------------

/// The 5-digit multipart marker `-NNNNN-of-…` ends at `m` (the index of
/// `-of-`), and starts at the returned dash index, or -1 when absent.
pub open spec fn five_digit_part_start(s: Seq<char>) -> int {
    let m = rfind(s, pat_dash_of());
    if m >= 0 {
        let ps = rfind(s.take(m), seq!['-']);
        if ps >= 0 && s.subrange(ps + 1, m).len() == 5 && all_digits(s.subrange(ps + 1, m)) {
            ps
        } else {
            -1
        }
    } else {
        -1
    }
}

/// Base name of a multipart file: `model-Q6_K-00003-of-00009.gguf` becomes
/// `model-Q6_K.gguf`, `model.Q4_K_M.gguf.part1of2` becomes
/// `model.Q4_K_M.gguf`; other names are unchanged.
pub open spec fn multipart_base(s: Seq<char>) -> Seq<char> {
    let ps = five_digit_part_start(s);
    if ps >= 0 {
        let g = rfind(s, pat_gguf());
        let tail_start = if g >= 0 { g } else { s.len() as int };
        s.take(ps) + s.skip(tail_start)
    } else {
        let pp = rfind(s, pat_part());
        if pp >= 0 {
            let suffix = s.skip(pp + 5);
            let o = find(suffix, pat_of());
            if o >= 0 && all_digits(suffix.take(o)) && all_digits(suffix.skip(o + 2)) {
                s.take(pp)
            } else {
                s
            }
        } else {
            s
        }
    }
}

/// `s` without its `.partNofM` suffix, where `N` is digits (used before the
/// quantization token is searched for).
pub open spec fn strip_part_suffix(s: Seq<char>) -> Seq<char> {
    let pp = rfind(s, pat_part());
    if pp >= 0 {
        let suffix = s.skip(pp + 5);
        let o = find(suffix, pat_of());
        if o >= 0 && all_digits(suffix.take(o)) {
            s.take(pp)
        } else {
            s
        }
    } else {
        s
    }
}

/// `s` without its `-NNNNN-of-NNNNN` multipart suffix.
pub open spec fn strip_five_digit_suffix(s: Seq<char>) -> Seq<char> {
    let ps = five_digit_part_start(s);
    if ps >= 0 {
        s.take(ps)
    } else {
        s
    }
}

fn five_digit_start(s: &[char]) -> (r: Option<usize>)
    ensures
        match r {
            Some(i) => i as int == five_digit_part_start(s@) && i < s.len(),
            None => five_digit_part_start(s@) == -1,
        },
{
    let dof = lit_dash_of();
    match rfind_seq(s, dof.as_slice()) {
        Some(m) => {
            proof {
                lemma_rfind_contains(s@, pat_dash_of());
            }
            let head = copy_range(s, 0, m);
            let dash = vec!['-'];
            match rfind_seq(head.as_slice(), dash.as_slice()) {
                Some(ps) => {
                    proof {
                        lemma_rfind_contains(head@, dash@);
                        assert(head@ =~= s@.take(m as int));
                        assert(dash@ =~= seq!['-']);
                    }
                    let num = copy_range(s, ps + 1, m);
                    if num.len() == 5 && chars_all_digits(num.as_slice()) {
                        Some(ps)
                    } else {
                        None
                    }
                },
                None => {
                    proof {
                        assert(head@ =~= s@.take(m as int));
                        assert(dash@ =~= seq!['-']);
                    }
                    None
                },
            }
        },
        None => None,
    }
}

fn part_suffix_start(s: &[char], require_total_digits: bool) -> (r: Option<usize>)
    ensures
        ({
            let pp = rfind(s@, pat_part());
            let suffix = s@.skip(pp + 5);
            let o = find(suffix, pat_of());
            let ok = pp >= 0 && o >= 0 && all_digits(suffix.take(o)) && (!require_total_digits
                || all_digits(suffix.skip(o + 2)));
            match r {
                Some(i) => ok && i as int == pp && i <= s.len(),
                None => !ok,
            }
        }),
{
    let part = lit_part();
    match rfind_seq(s, part.as_slice()) {
        Some(pp) => {
            proof {
                lemma_rfind_contains(s@, pat_part());
                assert(pat_part().len() == 5);
                assert(pp as int == rfind(s@, pat_part()));
                assert(occurs_at(s@, pat_part(), pp as int));
            }
            let slen = s.len();
            assert(pp + 5 <= slen);
            let suffix = copy_range(s, pp + 5, slen);
            assert(suffix@ =~= s@.skip(pp + 5));
            let of = lit_of();
            match find_seq(suffix.as_slice(), of.as_slice()) {
                Some(o) => {
                    proof {
                        lemma_find_contains(suffix@, pat_of());
                    }
                    let num = copy_range(suffix.as_slice(), 0, o);
                    assert(num@ =~= suffix@.take(o as int));
                    if !chars_all_digits(num.as_slice()) {
                        return None;
                    }
                    if require_total_digits {
                        let total = copy_range(suffix.as_slice(), o + 2, suffix.len());
                        assert(total@ =~= suffix@.skip(o + 2));
                        if !chars_all_digits(total.as_slice()) {
                            return None;
                        }
                    }
                    Some(pp)
                },
                None => None,
            }
        },
        None => None,
    }
}

/// Base name of a multipart file (see [`multipart_base`]).
pub fn multipart_base_chars(s: &[char]) -> (r: Vec<char>)
    ensures
        r@ == multipart_base(s@),
{
    match five_digit_start(s) {
        Some(ps) => {
            let gg = lit_gguf();
            let tail_start = match rfind_seq(s, gg.as_slice()) {
                Some(g) => {
                    proof {
                        lemma_rfind_contains(s@, pat_gguf());
                    }
                    g
                },
                None => s.len(),
            };
            let mut out = copy_range(s, 0, ps);
            let tail = copy_range(s, tail_start, s.len());
            let mut i: usize = 0;
            let ghost head = out@;
            while i < tail.len()
                invariant
                    i <= tail.len(),
                    out@ == head + tail@.take(i as int),
                decreases tail.len() - i,
            {
                out.push(tail[i]);
                i += 1;
                assert(out@ =~= head + tail@.take(i as int));
            }
            assert(tail@.take(tail@.len() as int) =~= tail@);
            assert(s@.subrange(tail_start as int, s@.len() as int) =~= s@.skip(tail_start as int));
            assert(s@.subrange(0, ps as int) =~= s@.take(ps as int));
            out
        },
        None => {
            match part_suffix_start(s, true) {
                Some(pp) => {
                    let r = copy_range(s, 0, pp);
                    assert(r@ =~= s@.take(pp as int));
                    r
                },
                None => copy_all(s),
            }
        },
    }
}

/// Base name of a multipart GGUF file: strips a `-NNNNN-of-NNNNN` part
/// marker (keeping the extension) or a trailing `.partNofM`.
pub fn get_multipart_base_name(filename: &str) -> (r: String)
    ensures
        r@ == multipart_base(filename@),
{
    let cs = to_chars(filename);
    let b = multipart_base_chars(cs.as_slice());
    from_chars(b.as_slice())
}

// ---------------------------------------------------------------------------
// Quantization type of a file name
// ---------------------------------------------------------------------------

/// The part of a file name in which the quantization token is searched:
/// without `.partNofM`, without trailing `.gguf`s, without `-NNNNN-of-…`.
pub open spec fn quant_stem(s: Seq<char>) -> Seq<char> {
    strip_five_digit_suffix(trim_end_all(strip_part_suffix(s), pat_gguf()))
}

/// Quantization token from the last `.`-separated part (or from that
/// part's text before its first `_`).
pub open spec fn quant_from_dotted(name: Seq<char>) -> Option<Seq<char>> {
    let parts = split_on(name, '.');
    if parts.len() > 1 {
        let last = parts.last();
        let prefix = split_on(last, '_')[0];
        if looks_like_quant(last) {
            Some(unicode_upper(last))
        } else if looks_like_quant(prefix) {
            Some(unicode_upper(prefix))
        } else {
            None
        }
    } else {
        None
    }
}

/// Quantization token among `parts[0..k]`, scanning from the right; a part
/// that is not a token itself but contains `_` contributes its text before
/// the first `_`.
pub open spec fn quant_from_dash_parts(parts: Seq<Seq<char>>, k: int) -> Option<Seq<char>>
    decreases k,
{
    if k <= 0 || k > parts.len() {
        None
    } else {
        let part = parts[k - 1];
        let first = split_on(part, '_')[0];
        if looks_like_quant(part) {
            Some(unicode_upper(part))
        } else if part.contains('_') && looks_like_quant(first) {
            Some(unicode_upper(first))
        } else {
            quant_from_dash_parts(parts, k - 1)
        }
    }
}

/// The quantization type a file name carries, uppercased, if any.
pub open spec fn quant_of_filename(s: Seq<char>) -> Option<Seq<char>> {
    let name = quant_stem(s);
    match quant_from_dotted(name) {
        Some(q) => Some(q),
        None => quant_from_dash_parts(split_on(name, '-'), split_on(name, '-').len() as int),
    }
}

/// View of an optional string.
pub open spec fn opt_str_view(o: Option<String>) -> Option<Seq<char>> {
    match o {
        Some(s) => Some(s@),
        None => None,
    }
}

/// View of an optional character vector.
pub open spec fn opt_chars_view(o: Option<Vec<char>>) -> Option<Seq<char>> {
    match o {
        Some(s) => Some(s@),
        None => None,
    }
}

fn quant_stem_chars(s: &[char]) -> (r: Vec<char>)
    ensures
        r@ == quant_stem(s@),
{
    let stripped = match part_suffix_start(s, false) {
        Some(pp) => {
            let r = copy_range(s, 0, pp);
            assert(r@ =~= s@.take(pp as int));
            r
        },
        None => copy_all(s),
    };
    assert(stripped@ == strip_part_suffix(s@));
    let gg = lit_gguf();
    let trimmed = trim_end_matches(stripped.as_slice(), gg.as_slice());
    match five_digit_start(trimmed.as_slice()) {
        Some(ps) => {
            let r = copy_range(trimmed.as_slice(), 0, ps);
            assert(r@ =~= trimmed@.take(ps as int));
            r
        },
        None => trimmed,
    }
}

fn first_underscore_piece(s: &[char]) -> (r: Vec<char>)
    ensures
        r@ == split_on(s@, '_')[0],
{
    let pieces = split_chars(s, '_');
    proof {
        lemma_split_nonempty(s@, '_');
    }
    copy_all(pieces[0].as_slice())
}

fn dotted_quant(name: &[char]) -> (r: Option<Vec<char>>)
    ensures
        opt_chars_view(r) == quant_from_dotted(name@),
{
    let parts = split_chars(name, '.');
    if parts.len() > 1 {
        let last = &parts[parts.len() - 1];
        assert(last@ == split_on(name@, '.').last());
        if looks_like_quant_chars(last.as_slice()) {
            return Some(upper_chars(last.as_slice()));
        }
        let prefix = first_underscore_piece(last.as_slice());
        if looks_like_quant_chars(prefix.as_slice()) {
            return Some(upper_chars(prefix.as_slice()));
        }
    }
    None
}

fn dash_quant(name: &[char]) -> (r: Option<Vec<char>>)
    ensures
        opt_chars_view(r) == quant_from_dash_parts(
            split_on(name@, '-'),
            split_on(name@, '-').len() as int,
        ),
{
    let parts = split_chars(name, '-');
    let ghost sp = split_on(name@, '-');
    let mut k: usize = parts.len();
    while k > 0
        invariant
            k <= parts.len(),
            sp == split_on(name@, '-'),
            parts@.len() == sp.len(),
            forall|j: int| 0 <= j < parts@.len() ==> (#[trigger] parts@[j])@ == sp[j],
            quant_from_dash_parts(sp, k as int) == quant_from_dash_parts(sp, sp.len() as int),
        decreases k,
    {
        let part = &parts[k - 1];
        assert(part@ == sp[k - 1]);
        if looks_like_quant_chars(part.as_slice()) {
            let u = upper_chars(part.as_slice());
            assert(quant_from_dash_parts(sp, k as int) == Some(unicode_upper(sp[k - 1])));
            return Some(u);
        }
        if contains_char(part.as_slice(), '_') {
            let first = first_underscore_piece(part.as_slice());
            if looks_like_quant_chars(first.as_slice()) {
                let u = upper_chars(first.as_slice());
                assert(quant_from_dash_parts(sp, k as int) == Some(unicode_upper(first@)));
                return Some(u);
            }
        }
        k -= 1;
    }
    None
}

/// Quantization type of a file name (see [`quant_of_filename`]).
pub fn quant_of_filename_chars(s: &[char]) -> (r: Option<Vec<char>>)
    ensures
        opt_chars_view(r) == quant_of_filename(s@),
{
    let name = quant_stem_chars(s);
    match dotted_quant(name.as_slice()) {
        Some(q) => Some(q),
        None => dash_quant(name.as_slice()),
    }
}

/// Extracts the quantization type from a (possibly multipart) GGUF file
/// name, uppercased: `model.Q4_K_M.gguf` gives `Q4_K_M`,
/// `Qwen3-VL-4B-IQ4_XS.gguf` gives `IQ4_XS`; `None` when the name carries
/// no quantization token.
pub fn extract_quantization_type(filename: &str) -> (r: Option<String>)
    ensures
        opt_str_view(r) == quant_of_filename(filename@),
{
    let cs = to_chars(filename);
    match quant_of_filename_chars(cs.as_slice()) {
        Some(q) => Some(from_chars(q.as_slice())),
        None => None,
    }
}

// ---------------------------------------------------------------------------
// Quantization type of a directory name
// ---------------------------------------------------------------------------

/// The quantization type a directory name stands for: the whole name
/// uppercased when it is a token, else its last `-`-separated part when
/// that is one (`cerebras_MiniMax-M2-Q8_0` gives `Q8_0`).
pub open spec fn dir_quant(d: Seq<char>) -> Option<Seq<char>> {
    let upper = unicode_upper(d);
    let last = split_on(upper, '-').last();
    if looks_like_quant(upper) {
        Some(upper)
    } else if looks_like_quant(last) {
        Some(last)
    } else {
        None
    }
}

/// First quantization-named directory among `comps[i..len-1]` (the last
/// component is the file name itself).
pub open spec fn first_dir_quant(comps: Seq<Seq<char>>, i: int) -> Option<Seq<char>>
    decreases comps.len() - i,
{
    if i < 0 || i + 1 >= comps.len() {
        None
    } else {
        match dir_quant(comps[i]) {
            Some(q) => Some(q),
            None => first_dir_quant(comps, i + 1),
        }
    }
}

fn dir_quant_chars(d: &[char]) -> (r: Option<Vec<char>>)
    ensures
        opt_chars_view(r) == dir_quant(d@),
{
    let upper = upper_chars(d);
    if looks_like_quant_chars(upper.as_slice()) {
        return Some(upper);
    }
    let pieces = split_chars(upper.as_slice(), '-');
    proof {
        lemma_split_nonempty(upper@, '-');
    }
    let last = copy_all(pieces[pieces.len() - 1].as_slice());
    if looks_like_quant_chars(last.as_slice()) {
        Some(last)
    } else {
        None
    }
}

/// Does the directory name look like a quantization type (`Q4_K_M`,
/// `IQ4_XS`, `cerebras_MiniMax-M2-Q8_0`), ignoring case?
pub fn is_quantization_directory(dirname: &str) -> (r: bool)
    ensures
        r == dir_quant(dirname@).is_some(),
{
    let cs = to_chars(dirname);
    dir_quant_chars(cs.as_slice()).is_some()
}

/// Quantization type of a directory name; names that are not one are
/// returned uppercased whole.
pub fn extract_quantization_type_from_dirname(dirname: &str) -> (r: String)
    ensures
        r@ == match dir_quant(dirname@) {
            Some(q) => q,
            None => unicode_upper(dirname@),
        },
{
    let cs = to_chars(dirname);
    match dir_quant_chars(cs.as_slice()) {
        Some(q) => from_chars(q.as_slice()),
        None => {
            let up = upper_chars(cs.as_slice());
            from_chars(up.as_slice())
        },
    }
}

/// First quantization-named ancestor directory of a repo path.
pub fn quant_from_directory_chars(path: &[char]) -> (r: Option<Vec<char>>)
    ensures
        opt_chars_view(r) == first_dir_quant(split_on(path@, '/'), 0),
{
    let comps = split_chars(path, '/');
    let ghost sp = split_on(path@, '/');
    proof {
        lemma_split_nonempty(path@, '/');
    }
    let mut i: usize = 0;
    while i < comps.len() - 1
        invariant
            comps.len() >= 1,
            sp == split_on(path@, '/'),
            comps@.len() == sp.len(),
            forall|j: int| 0 <= j < comps@.len() ==> (#[trigger] comps@[j])@ == sp[j],
            i < comps.len(),
            first_dir_quant(sp, i as int) == first_dir_quant(sp, 0),
        decreases comps.len() - i,
    {
        let c = &comps[i];
        assert(c@ == sp[i as int]);
        match dir_quant_chars(c.as_slice()) {
            Some(q) => {
                return Some(q);
            },
            None => {},
        }
        i += 1;
    }
    None
}

// ---------------------------------------------------------------------------
// GGUF files
// ---------------------------------------------------------------------------

/// A repo path is a GGUF-family file: it ends with `.gguf` or holds
/// `.gguf.part`.
pub open spec fn is_gguf(p: Seq<char>) -> bool {
    has_suffix(p, pat_gguf()) || contains_seq(p, pat_gguf_part())
}

pub fn is_gguf_path_chars(p: &[char]) -> (r: bool)
    ensures
        r == is_gguf(p@),
{
    let g = lit_gguf();
    if ends_with(p, g.as_slice()) {
        return true;
    }
    let gp = lit_gguf_part();
    let r = find_seq(p, gp.as_slice()).is_some();
    proof {
        lemma_find_contains(p@, pat_gguf_part());
    }
    r
}

/// Basename of a path with its multipart marker and one `.gguf` removed:
/// `Dynamic/model.Q4_K_M-00001-of-00002.gguf` gives `model.Q4_K_M`.
pub open spec fn stem_of_path(path: Seq<char>) -> Seq<char> {
    let b = multipart_base(split_on(path, '/').last());
    if has_suffix(b, pat_gguf()) {
        b.take(b.len() - 5)
    } else {
        b
    }
}

pub fn classification_stem_chars(path: &[char]) -> (r: Vec<char>)
    ensures
        r@ == stem_of_path(path@),
{
    let comps = split_chars(path, '/');
    proof {
        lemma_split_nonempty(path@, '/');
    }
    let base = multipart_base_chars(comps[comps.len() - 1].as_slice());
    let g = lit_gguf();
    if ends_with(base.as_slice(), g.as_slice()) {
        let r = copy_range(base.as_slice(), 0, base.len() - 5);
        assert(r@ =~= base@.take(base@.len() - 5));
        r
    } else {
        base
    }
}

pub open spec fn is_token_sep(c: char) -> bool {
    c == '.' || c == '-' || c == '_'
}

pub open spec fn pat_mmproj() -> Seq<char> {
    seq!['m', 'm', 'p', 'r', 'o', 'j']
}

/// `mmproj` (any ASCII case) stands at index `i` of `s` as a whole token
/// between `.`, `-`, `_` separators or the ends of `s`.
pub open spec fn mmproj_at(s: Seq<char>, i: int) -> bool {
    &&& 0 <= i && i + 6 <= s.len()
    &&& eq_ignore_ascii_case(s.subrange(i, i + 6), pat_mmproj())
    &&& (i == 0 || is_token_sep(s[i - 1]))
    &&& (i + 6 == s.len() || is_token_sep(s[i + 6]))
}

/// The stem names a multimodal projector: one of its `.`/`-`/`_` tokens is
/// `mmproj` in any ASCII case.
pub open spec fn is_mmproj(s: Seq<char>) -> bool {
    exists|i: int| mmproj_at(s, i)
}

fn is_sep_char(c: char) -> (r: bool)
    ensures
        r == is_token_sep(c),
{
    c == '.' || c == '-' || c == '_'
}

pub fn is_mmproj_chars(s: &[char]) -> (r: bool)
    ensures
        r == is_mmproj(s@),
{
    let pat = vec!['m', 'm', 'p', 'r', 'o', 'j'];
    assert(pat@ =~= pat_mmproj());
    if s.len() < 6 {
        return false;
    }
    let mut i: usize = 0;
    while i <= s.len() - 6
        invariant
            6 <= s.len(),
            pat@ == pat_mmproj(),
            i <= s.len() - 6 + 1,
            forall|j: int| 0 <= j < i ==> !mmproj_at(s@, j),
        decreases s.len() - i,
    {
        let window = copy_range(s, i, i + 6);
        if chars_eq_ignore_ascii_case(window.as_slice(), pat.as_slice()) && (i == 0 || is_sep_char(
            s[i - 1],
        )) && (i + 6 == s.len() || is_sep_char(s[i + 6])) {
            assert(mmproj_at(s@, i as int));
            return true;
        }
        i += 1;
    }
    proof {
        assert forall|j: int| mmproj_at(s@, j) implies false by {
            assert(j < i);
        }
    }
    false
}

/// Does the stem identify a multimodal projector file (`mmproj-F32`,
/// `model.mmproj-Q8_0`)?
pub fn is_mmproj_name(stem: &str) -> (r: bool)
    ensures
        r == is_mmproj(stem@),
{
    let cs = to_chars(stem);
    is_mmproj_chars(cs.as_slice())
}

pub open spec fn name_other() -> Seq<char> {
    seq!['O', 'T', 'H', 'E', 'R']
}

pub open spec fn name_mmproj() -> Seq<char> {
    seq!['M', 'M', 'P', 'R', 'O', 'J']
}

/// The quantization group of one GGUF repo file: projector files form
/// `MMPROJ` / `MMPROJ-<quant>`; otherwise the quant in the file name, else
/// the first quant-named ancestor directory, else `OTHER`.
pub open spec fn classify_quant(path: Seq<char>) -> Seq<char> {
    let stem = stem_of_path(path);
    if is_mmproj(stem) {
        match quant_of_filename(stem) {
            Some(q) => name_mmproj().push('-') + q,
            None => name_mmproj(),
        }
    } else {
        match quant_of_filename(stem) {
            Some(q) => q,
            None => match first_dir_quant(split_on(path, '/'), 0) {
                Some(q) => q,
                None => name_other(),
            },
        }
    }
}

pub fn classify_quant_chars(path: &[char]) -> (r: Vec<char>)
    ensures
        r@ == classify_quant(path@),
{
    let stem = classification_stem_chars(path);
    if is_mmproj_chars(stem.as_slice()) {
        let mut out = vec!['M', 'M', 'P', 'R', 'O', 'J'];
        assert(out@ =~= name_mmproj());
        match quant_of_filename_chars(stem.as_slice()) {
            Some(q) => {
                out.push('-');
                let ghost head = out@;
                let mut i: usize = 0;
                while i < q.len()
                    invariant
                        i <= q.len(),
                        out@ == head + q@.take(i as int),
                    decreases q.len() - i,
                {
                    out.push(q[i]);
                    i += 1;
                    assert(out@ =~= head + q@.take(i as int));
                }
                assert(q@.take(q@.len() as int) =~= q@);
                out
            },
            None => out,
        }
    } else {
        match quant_of_filename_chars(stem.as_slice()) {
            Some(q) => q,
            None => match quant_from_directory_chars(path) {
                Some(q) => q,
                None => {
                    let o = vec!['O', 'T', 'H', 'E', 'R'];
                    assert(o@ =~= name_other());
                    o
                },
            },
        }
    }
}

/// Quantization group for GGUF files whose layout is not recognized
/// (kept visible and downloadable, always listed last).
pub const OTHER_QUANT_TYPE: &'static str = "OTHER";

/// Group prefix for multimodal projector files, which never mix into a
/// weight quantization group.
pub const MMPROJ_QUANT_TYPE: &'static str = "MMPROJ";

/// Is this repo path a GGUF-family file (single or multipart)?
pub fn is_gguf_path(path: &str) -> (r: bool)
    ensures
        r == is_gguf(path@),
{
    let cs = to_chars(path);
    is_gguf_path_chars(cs.as_slice())
}

/// Basename with the multipart suffix and `.gguf` removed, where the
/// quantization hints live (see [`stem_of_path`]).
pub fn classification_stem(path: &str) -> (r: String)
    ensures
        r@ == stem_of_path(path@),
{
    let cs = to_chars(path);
    let st = classification_stem_chars(cs.as_slice());
    from_chars(st.as_slice())
}

/// Quantization group of one repo file (see [`classify_quant`]).
pub fn classify_file_quant_type(path: &str) -> (r: String)
    ensures
        r@ == classify_quant(path@),
{
    let cs = to_chars(path);
    let q = classify_quant_chars(cs.as_slice());
    from_chars(q.as_slice())
}

/// Quantization type named by a directory, with no fallback to the raw
/// name (see [`dir_quant`]).
pub fn quant_type_from_dirname_strict(dirname: &str) -> (r: Option<String>)
    ensures
        opt_str_view(r) == dir_quant(dirname@),
{
    let cs = to_chars(dirname);
    match dir_quant_chars(cs.as_slice()) {
        Some(q) => Some(from_chars(q.as_slice())),
        None => None,
    }
}

/// First quantization-named ancestor directory of a path, root first.
pub fn quant_type_from_directory(path: &str) -> (r: Option<String>)
    ensures
        opt_str_view(r) == first_dir_quant(split_on(path@, '/'), 0),
{
    let cs = to_chars(path);
    match quant_from_directory_chars(cs.as_slice()) {
        Some(q) => Some(from_chars(q.as_slice())),
        None => None,
    }
}

// ---------------------------------------------------------------------------
// Multipart numbering
// ---------------------------------------------------------------------------

/// Capture groups 1 and 2 of the leftmost-first match of the regular
/// expression `pattern` in `haystack` (`None` when nothing matches or the
/// pattern does not compile).
pub uninterp spec fn regex_groups(pattern: Seq<char>, haystack: Seq<char>) -> Option<(Option<Seq<char>>, Option<Seq<char>>)>;

pub open spec fn groups_view(g: Option<(Option<String>, Option<String>)>) -> Option<(Option<Seq<char>>, Option<Seq<char>>)> {
    match g {
        Some((a, b)) => Some((opt_str_view(a), opt_str_view(b))),
        None => None,
    }
}

/// `(\d{5})-of-(\d{5})` matches `s` from `i` on.
pub open spec fn five_at(s: Seq<char>, i: int) -> bool {
    &&& 0 <= i
    &&& i + 14 <= s.len()
    &&& all_digits(s.subrange(i, i + 5))
    &&& s.subrange(i + 5, i + 9) == seq!['-', 'o', 'f', '-']
    &&& all_digits(s.subrange(i + 9, i + 14))
}

/// Groups 1 and 2 of the leftmost match of `(\d{5})-of-(\d{5})` in ASCII
/// text.
pub open spec fn five_groups(s: Seq<char>) -> Option<(Option<Seq<char>>, Option<Seq<char>>)> {
    if exists|i: int| five_at(s, i) {
        let i = choose|i: int| five_at(s, i) && forall|j: int| 0 <= j < i ==> !five_at(s, j);
        Some((Some(s.subrange(i, i + 5)), Some(s.subrange(i + 9, i + 14))))
    } else {
        None
    }
}

/// Length of the run of ASCII digits of `s` from `k` on.
pub open spec fn digit_run(s: Seq<char>, k: int) -> nat
    decreases s.len() - k,
{
    if 0 <= k < s.len() && is_digit(s[k]) {
        1 + digit_run(s, k + 1)
    } else {
        0
    }
}

/// `part(\d+)of(\d+)` matches `s` from `i` on (each run of digits taken
/// whole, as the greedy repetitions do).
pub open spec fn part_at(s: Seq<char>, i: int) -> bool {
    let o = i + 4 + digit_run(s, i + 4);
    &&& 0 <= i
    &&& i + 4 <= s.len()
    &&& s.subrange(i, i + 4) == seq!['p', 'a', 'r', 't']
    &&& digit_run(s, i + 4) > 0
    &&& o + 2 <= s.len()
    &&& s[o] == 'o'
    &&& s[o + 1] == 'f'
    &&& digit_run(s, o + 2) > 0
}

/// Groups 1 and 2 of the leftmost match of `part(\d+)of(\d+)` in ASCII
/// text.
pub open spec fn part_groups(s: Seq<char>) -> Option<(Option<Seq<char>>, Option<Seq<char>>)> {
    if exists|i: int| part_at(s, i) {
        let i = choose|i: int| part_at(s, i) && forall|j: int| 0 <= j < i ==> !part_at(s, j);
        let o = i + 4 + digit_run(s, i + 4);
        Some((Some(s.subrange(i + 4, o)), Some(s.subrange(o + 2, o + 2 + digit_run(s, o + 2)))))
    } else {
        None
    }
}

/// `regex::Regex::new` on `pattern`, then `Regex::captures` on
/// `haystack`, and groups 1 and 2 through `Captures::get`.
///
/// Claims that the result is a function of the pattern and the text
/// (named [`regex_groups`]), and, for the two patterns this crate uses on
/// ASCII text (where `\d` is `[0-9]`), the groups of the leftmost match.
/// What the patterns match in other text is not stated.
#[verifier::external_body]
fn regex_captures(pattern: &str, haystack: &str) -> (r: Option<(Option<String>, Option<String>)>)
    ensures
        groups_view(r) == regex_groups(pattern@, haystack@),
        pattern@ == five_digit_pattern() && all_ascii(haystack@) ==> groups_view(r) == five_groups(haystack@),
        pattern@ == part_of_pattern() && all_ascii(haystack@) ==> groups_view(r) == part_groups(haystack@),
{
    let re = regex::Regex::new(pattern).ok()?;
    let caps = re.captures(haystack)?;
    Some((caps.get(1).map(|m| m.as_str().to_string()), caps.get(2).map(|m| m.as_str().to_string())))
}

/// Value of a string of ASCII digits.
pub open spec fn digits_value(s: Seq<char>) -> nat
    decreases s.len(),
{
    if s.len() == 0 {
        0
    } else {
        digits_value(s.drop_last()) * 10 + ((s.last() as nat) - ('0' as nat)) as nat
    }
}

/// What `str::parse::<u32>` gives: an optional `+` and one or more ASCII
/// digits whose value fits in `u32`.
pub open spec fn parsed_u32(s: Seq<char>) -> Option<u32> {
    let d = if s.len() > 0 && s[0] == '+' { s.drop_first() } else { s };
    if d.len() > 0 && all_digits(d) && digits_value(d) <= u32::MAX {
        Some(digits_value(d) as u32)
    } else {
        None
    }
}

/// Parses a `u32` as `str::parse` does.
pub fn parse_u32(s: &str) -> (r: Option<u32>)
    ensures
        r == parsed_u32(s@),
{
    let cs = to_chars(s);
    let start: usize = if cs.len() > 0 && cs[0] == '+' { 1 } else { 0 };
    let ghost d = if s@.len() > 0 && s@[0] == '+' { s@.drop_first() } else { s@ };
    assert(cs@.skip(start as int) =~= d);
    if start >= cs.len() {
        return None;
    }
    let mut v: u64 = 0;
    let mut i: usize = start;
    while i < cs.len()
        invariant
            start <= i <= cs@.len(),
            cs@ == s@,
            d == cs@.skip(start as int),
            d == (if s@.len() > 0 && s@[0] == '+' { s@.drop_first() } else { s@ }),
            all_digits(cs@.subrange(start as int, i as int)),
            v == digits_value(cs@.subrange(start as int, i as int)),
            v <= u32::MAX,
        decreases cs.len() - i,
    {
        let c = cs[i];
        proof {
            assert(cs@.subrange(start as int, i + 1).drop_last() =~= cs@.subrange(start as int, i as int));
            assert(cs@.subrange(start as int, i + 1).last() == c);
        }
        if !('0' <= c && c <= '9') {
            proof {
                assert(d[i - start] == c);
            }
            return None;
        }
        let digit = (c as u32 - '0' as u32) as u64;
        let nv = v * 10 + digit;
        if nv > 0xffff_ffff {
            proof {
                assert(cs@.subrange(start as int, i + 1) =~= d.take((i + 1 - start) as int));
                if all_digits(d) {
                    lemma_digits_value_prefix(d, (i + 1 - start) as int);
                }
            }
            return None;
        }
        v = nv;
        i += 1;
        proof {
            assert forall|k: int| 0 <= k < (i - start) implies is_digit(#[trigger] cs@.subrange(start as int, i as int)[k]) by {
                if k < i - 1 - start {
                    assert(cs@.subrange(start as int, i as int)[k] == cs@.subrange(start as int, i - 1)[k]);
                }
            }
        }
    }
    assert(cs@.subrange(start as int, cs@.len() as int) =~= d);
    Some(v as u32)
}

proof fn lemma_digits_value_prefix(d: Seq<char>, k: int)
    requires
        0 <= k <= d.len(),
        all_digits(d),
    ensures
        digits_value(d.take(k)) <= digits_value(d),
    decreases d.len() - k,
{
    if k < d.len() {
        lemma_digits_value_prefix(d, k + 1);
        assert(d.take(k + 1).drop_last() =~= d.take(k));
        assert(is_digit(d[k]));
    } else {
        assert(d.take(k) =~= d);
    }
}

/// What one pattern's groups decide: a part number and count, give up on
/// the name altogether (a group is missing or not a `u32`), or try the
/// next pattern.
#[derive(Debug, Clone, Copy, PartialEq, Eq, Structural)]
pub enum GroupsVerdict {
    Found(u32, u32),
    Reject,
    NextPattern,
}

pub open spec fn verdict_of(g: Option<(Option<Seq<char>>, Option<Seq<char>>)>) -> GroupsVerdict {
    match g {
        None => GroupsVerdict::NextPattern,
        Some((a, b)) => match (a, b) {
            (Some(x), Some(y)) => match (parsed_u32(x), parsed_u32(y)) {
                (Some(cur), Some(total)) => if total > 1 && cur <= total {
                    GroupsVerdict::Found(cur, total)
                } else {
                    GroupsVerdict::NextPattern
                },
                _ => GroupsVerdict::Reject,
            },
            _ => GroupsVerdict::Reject,
        },
    }
}

/// Judges the capture groups of one multipart pattern: both must parse as
/// `u32` (else the name is rejected), and a count above one with the part
/// number within it is a multipart name.
pub fn judge_groups(g: &Option<(Option<String>, Option<String>)>) -> (r: GroupsVerdict)
    ensures
        r == verdict_of(groups_view(*g)),
{
    match g {
        None => GroupsVerdict::NextPattern,
        Some((a, b)) => {
            let cur = match a {
                Some(x) => match parse_u32(x.as_str()) {
                    Some(v) => v,
                    None => return GroupsVerdict::Reject,
                },
                None => return GroupsVerdict::Reject,
            };
            let total = match b {
                Some(y) => match parse_u32(y.as_str()) {
                    Some(v) => v,
                    None => return GroupsVerdict::Reject,
                },
                None => return GroupsVerdict::Reject,
            };
            if total > 1 && cur <= total {
                GroupsVerdict::Found(cur, total)
            } else {
                GroupsVerdict::NextPattern
            }
        },
    }
}

pub open spec fn five_digit_pattern() -> Seq<char> {
    "(\\d{5})-of-(\\d{5})"@
}

pub open spec fn part_of_pattern() -> Seq<char> {
    "part(\\d+)of(\\d+)"@
}

/// Part number and count of a multipart name: the `00001-of-00002` form
/// first, then `part1of2`.
pub open spec fn multipart_numbers(name: Seq<char>) -> Option<(u32, u32)> {
    match verdict_of(regex_groups(five_digit_pattern(), name)) {
        GroupsVerdict::Found(c, t) => Some((c, t)),
        GroupsVerdict::Reject => None,
        GroupsVerdict::NextPattern => match verdict_of(regex_groups(part_of_pattern(), name)) {
            GroupsVerdict::Found(c, t) => Some((c, t)),
            _ => None,
        },
    }
}

/// [`multipart_numbers`] of ASCII text, with the matches spelled out.
pub open spec fn multipart_numbers_ascii(name: Seq<char>) -> Option<(u32, u32)> {
    match verdict_of(five_groups(name)) {
        GroupsVerdict::Found(c, t) => Some((c, t)),
        GroupsVerdict::Reject => None,
        GroupsVerdict::NextPattern => match verdict_of(part_groups(name)) {
            GroupsVerdict::Found(c, t) => Some((c, t)),
            _ => None,
        },
    }
}

/// Parses multipart file names (`model-Q2_K-00001-of-00002.gguf`,
/// `model.Q4_K_M.gguf.part1of2`) into (part, count); `None` for single
/// files.
pub fn parse_multipart_filename(filename: &str) -> (r: Option<(u32, u32)>)
    ensures
        r == multipart_numbers(filename@),
        all_ascii(filename@) ==> r == multipart_numbers_ascii(filename@),
{
    let g = regex_captures("(\\d{5})-of-(\\d{5})", filename);
    match judge_groups(&g) {
        GroupsVerdict::Found(c, t) => return Some((c, t)),
        GroupsVerdict::Reject => return None,
        GroupsVerdict::NextPattern => {},
    }
    let h = regex_captures("part(\\d+)of(\\d+)", filename);
    match judge_groups(&h) {
        GroupsVerdict::Found(c, t) => Some((c, t)),
        _ => None,
    }
}

/// What `str::parse::<u64>` gives: an optional `+` and one or more ASCII
/// digits whose value fits in `u64`.
pub open spec fn parsed_u64(s: Seq<char>) -> Option<u64> {
    let d = if s.len() > 0 && s[0] == '+' { s.drop_first() } else { s };
    if d.len() > 0 && all_digits(d) && digits_value(d) <= u64::MAX {
        Some(digits_value(d) as u64)
    } else {
        None
    }
}

/// Parses a `u64` as `str::parse` does.
pub fn parse_u64(s: &str) -> (r: Option<u64>)
    ensures
        r == parsed_u64(s@),
{
    let cs = to_chars(s);
    let start: usize = if cs.len() > 0 && cs[0] == '+' { 1 } else { 0 };
    let ghost d = if s@.len() > 0 && s@[0] == '+' { s@.drop_first() } else { s@ };
    assert(cs@.skip(start as int) =~= d);
    if start >= cs.len() {
        return None;
    }
    let mut v: u128 = 0;
    let mut i: usize = start;
    while i < cs.len()
        invariant
            start <= i <= cs@.len(),
            cs@ == s@,
            d == cs@.skip(start as int),
            d == (if s@.len() > 0 && s@[0] == '+' { s@.drop_first() } else { s@ }),
            all_digits(cs@.subrange(start as int, i as int)),
            v == digits_value(cs@.subrange(start as int, i as int)),
            v <= u64::MAX,
        decreases cs.len() - i,
    {
        let c = cs[i];
        proof {
            assert(cs@.subrange(start as int, i + 1).drop_last() =~= cs@.subrange(start as int, i as int));
            assert(cs@.subrange(start as int, i + 1).last() == c);
        }
        if !('0' <= c && c <= '9') {
            proof {
                assert(d[i - start] == c);
            }
            return None;
        }
        let digit = (c as u32 - '0' as u32) as u128;
        let nv = v * 10 + digit;
        if nv > 0xffff_ffff_ffff_ffff {
            proof {
                assert(cs@.subrange(start as int, i + 1) =~= d.take((i + 1 - start) as int));
                if all_digits(d) {
                    lemma_digits_value_prefix(d, (i + 1 - start) as int);
                }
            }
            return None;
        }
        v = nv;
        i += 1;
        proof {
            assert forall|k: int| 0 <= k < (i - start) implies is_digit(#[trigger] cs@.subrange(start as int, i as int)[k]) by {
                if k < i - 1 - start {
                    assert(cs@.subrange(start as int, i as int)[k] == cs@.subrange(start as int, i - 1)[k]);
                }
            }
        }
    }
    assert(cs@.subrange(start as int, cs@.len() as int) =~= d);
    Some(v as u64)
}

} // verus!
