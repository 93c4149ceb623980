//! Download-side rules: path-component sanitizing, the relative target of
//! a download, the tunable download settings and the chunk size they give.

use crate::quant::{parse_u64, parsed_u64};
use crate::text::{
    contains_char, copy_range, decimal, from_chars, push_chars, push_decimal, split_chars, split_on,
    to_chars, trim_end_all, trim_end_matches,
};
use vstd::prelude::*;

verus! {

/// Unicode `White_Space` characters (what `char::is_whitespace` accepts).
pub open spec fn is_unicode_ws(c: char) -> bool {
    ('\u{9}' <= c && c <= '\u{d}') || c == ' ' || c == '\u{85}' || c == '\u{a0}' || c == '\u{1680}'
        || ('\u{2000}' <= c && c <= '\u{200a}') || c == '\u{2028}' || c == '\u{2029}' || c == '\u{202f}'
        || c == '\u{205f}' || c == '\u{3000}'
}

/// `s` without its leading whitespace.
pub open spec fn strip_leading_ws(s: Seq<char>) -> Seq<char>
    decreases s.len(),
{
    if s.len() > 0 && is_unicode_ws(s[0]) {
        strip_leading_ws(s.drop_first())
    } else {
        s
    }
}

/// `s` without its trailing whitespace.
pub open spec fn strip_trailing_ws(s: Seq<char>) -> Seq<char>
    decreases s.len(),
{
    if s.len() > 0 && is_unicode_ws(s.last()) {
        strip_trailing_ws(s.drop_last())
    } else {
        s
    }
}

/// `s` without leading and trailing whitespace (`str::trim`).
pub open spec fn trim_ws(s: Seq<char>) -> Seq<char> {
    strip_trailing_ws(strip_leading_ws(s))
}

/// A path component as it may be used on disk: `None` for traversal
/// (`.`, `..`), empty names and names holding a separator or NUL; else the
/// name with surrounding whitespace and trailing dots removed, unless that
/// leaves nothing.
pub open spec fn sanitized_component(c: Seq<char>) -> Option<Seq<char>> {
    if c.len() == 0 || c == seq!['.'] || c == seq!['.', '.'] || c.contains('/') || c.contains('\\')
        || c.contains('\0') {
        None
    } else {
        let t = trim_end_all(trim_ws(c), seq!['.']);
        if t.len() == 0 {
            None
        } else {
            Some(t)
        }
    }
}

fn char_is_ws(c: char) -> (r: bool)
    ensures
        r == is_unicode_ws(c),
{
    ('\u{9}' <= c && c <= '\u{d}') || c == ' ' || c == '\u{85}' || c == '\u{a0}' || c == '\u{1680}'
        || ('\u{2000}' <= c && c <= '\u{200a}') || c == '\u{2028}' || c == '\u{2029}' || c == '\u{202f}'
        || c == '\u{205f}' || c == '\u{3000}'
}

/// `s` without leading and trailing whitespace.
pub fn trim_chars(s: &[char]) -> (r: Vec<char>)
    ensures
        r@ == trim_ws(s@),
{
    let mut a: usize = 0;
    assert(s@.subrange(0, s@.len() as int) =~= s@);
    while a < s.len() && char_is_ws(s[a])
        invariant
            a <= s.len(),
            strip_leading_ws(s@.subrange(a as int, s@.len() as int)) == strip_leading_ws(s@),
        decreases s.len() - a,
    {
        proof {
            let t = s@.subrange(a as int, s@.len() as int);
            assert(t.drop_first() =~= s@.subrange(a + 1, s@.len() as int));
        }
        a += 1;
    }
    let ghost lead = s@.subrange(a as int, s@.len() as int);
    assert(strip_leading_ws(lead) == lead);
    let mut b: usize = s.len();
    assert(lead.subrange(0, (b - a) as int) =~= lead);
    while b > a && char_is_ws(s[b - 1])
        invariant
            a <= b <= s.len(),
            lead == s@.subrange(a as int, s@.len() as int),
            strip_trailing_ws(s@.subrange(a as int, b as int)) == strip_trailing_ws(lead),
        decreases b,
    {
        proof {
            let t = s@.subrange(a as int, b as int);
            assert(t.drop_last() =~= s@.subrange(a as int, b - 1));
        }
        b -= 1;
    }
    assert(strip_trailing_ws(s@.subrange(a as int, b as int)) == s@.subrange(a as int, b as int));
    copy_range(s, a, b)
}

/// Sanitizes one path component (see [`sanitized_component`]).
pub fn sanitize_component_chars(c: &[char]) -> (r: Option<Vec<char>>)
    ensures
        match r {
            Some(v) => sanitized_component(c@) == Some(v@),
            None => sanitized_component(c@) is None,
        },
{
    let n = c.len();
    if n == 0 || (n == 1 && c[0] == '.') || (n == 2 && c[0] == '.' && c[1] == '.') || contains_char(c, '/')
        || contains_char(c, '\\') || contains_char(c, '\0') {
        proof {
            if n == 1 && c[0] == '.' {
                assert(c@ =~= seq!['.']);
            }
            if n == 2 && c[0] == '.' && c[1] == '.' {
                assert(c@ =~= seq!['.', '.']);
            }
        }
        return None;
    }
    proof {
        if c@ == seq!['.'] {
            assert(c@[0] == '.');
        }
        if c@ == seq!['.', '.'] {
            assert(c@[0] == '.' && c@[1] == '.');
        }
    }
    let t = trim_chars(c);
    let dot = vec!['.'];
    assert(dot@ =~= seq!['.']);
    let u = trim_end_matches(t.as_slice(), dot.as_slice());
    if u.len() == 0 {
        None
    } else {
        Some(u)
    }
}

/// Sanitizes a path component: rejects traversal (`.`, `..`), empty names
/// and names with `/`, `\` or NUL, and trims surrounding whitespace and
/// trailing dots (leading dots, as in `.gitattributes`, stay).
pub fn sanitize_path_component(component: &str) -> (r: Option<String>)
    ensures
        match r {
            Some(s) => sanitized_component(component@) == Some(s@),
            None => sanitized_component(component@) is None,
        },
{
    let cs = to_chars(component);
    match sanitize_component_chars(cs.as_slice()) {
        Some(v) => Some(from_chars(v.as_slice())),
        None => None,
    }
}

/// The parts of a download target below the base directory:
/// `author`, `model`, and the sanitized components of the file name.
#[derive(Debug, Clone)]
pub struct DownloadTarget {
    pub author: String,
    pub model_name: String,
    pub file_parts: Vec<String>,
}

/// The sanitized components of `parts`, or the first that is refused.
pub open spec fn sanitized_parts(parts: Seq<Seq<char>>) -> Result<Seq<Seq<char>>, Seq<char>>
    decreases parts.len(),
{
    if parts.len() == 0 {
        Ok(Seq::<Seq<char>>::empty())
    } else {
        match sanitized_parts(parts.drop_last()) {
            Err(e) => Err(e),
            Ok(prev) => match sanitized_component(parts.last()) {
                Some(t) => Ok(prev.push(t)),
                None => Err("Invalid filename component: "@ + parts.last()),
            },
        }
    }
}

/// Where a download of `filename` from `model_id` goes below the base
/// directory, or the error message: the ID must be `author/name`, and the
/// author, the name and each `/`-separated part of the file name must
/// survive sanitizing.
pub open spec fn download_target(model_id: Seq<char>, filename: Seq<char>) -> Result<(Seq<char>, Seq<char>, Seq<Seq<char>>), Seq<char>> {
    let mp = split_on(model_id, '/');
    if mp.len() != 2 {
        Err("Invalid model ID format: "@ + model_id)
    } else {
        match sanitized_component(mp[0]) {
            None => Err("Invalid author in model ID: "@ + mp[0]),
            Some(author) => match sanitized_component(mp[1]) {
                None => Err("Invalid model name in model ID: "@ + mp[1]),
                Some(name) => match sanitized_parts(split_on(filename, '/')) {
                    Err(e) => Err(e),
                    Ok(parts) => Ok((author, name, parts)),
                },
            },
        }
    }
}

pub open spec fn target_view(t: DownloadTarget) -> (Seq<char>, Seq<char>, Seq<Seq<char>>) {
    (t.author@, t.model_name@, t.file_parts@.map_values(|s: String| s@))
}

fn message_with(prefix: &str, cs: &[char]) -> (r: String)
    ensures
        r@ == prefix@ + cs@,
{
    let mut m = String::from_str(prefix);
    push_chars(&mut m, cs);
    m
}

/// The sanitized `/`-separated components of a file name, or the message
/// for the first component that is refused.
pub fn sanitize_filename(filename: &str) -> (r: Result<Vec<String>, String>)
    ensures
        match r {
            Ok(parts) => sanitized_parts(split_on(filename@, '/')) == Ok::<Seq<Seq<char>>, Seq<char>>(
                parts@.map_values(|s: String| s@),
            ),
            Err(e) => sanitized_parts(split_on(filename@, '/')) == Err::<Seq<Seq<char>>, Seq<char>>(e@),
        },
{
    let fc = to_chars(filename);
    let fp = split_chars(fc.as_slice(), '/');
    let ghost fps = split_on(filename@, '/');
    let mut parts: Vec<String> = Vec::new();
    let mut k: usize = 0;
    assert(parts@.map_values(|s: String| s@) =~= Seq::<Seq<char>>::empty());
    while k < fp.len()
        invariant
            k <= fp@.len(),
            fps == split_on(filename@, '/'),
            fp@.len() == fps.len(),
            forall|j: int| 0 <= j < fp@.len() ==> (#[trigger] fp@[j])@ == fps[j],
            sanitized_parts(fps.take(k as int)) == Ok::<Seq<Seq<char>>, Seq<char>>(parts@.map_values(|s: String| s@)),
        decreases fp.len() - k,
    {
        proof {
            assert(fps.take(k + 1).drop_last() =~= fps.take(k as int));
            assert(fps.take(k + 1).last() == fps[k as int]);
        }
        match sanitize_component_chars(fp[k].as_slice()) {
            Some(p) => {
                let ghost before = parts@;
                parts.push(from_chars(p.as_slice()));
                assert(parts@.map_values(|s: String| s@) =~= before.map_values(|s: String| s@).push(p@));
            },
            None => {
                proof {
                    lemma_sanitized_parts_err(fps, k as int + 1);
                }
                return Err(message_with("Invalid filename component: ", fp[k].as_slice()));
            },
        }
        k += 1;
    }
    assert(fps.take(fps.len() as int) =~= fps);
    Ok(parts)
}

/// Validates and sanitizes the model ID and file name of a download (the
/// part of path validation that needs no file system): see
/// [`download_target`].
pub fn sanitize_download_target(model_id: &str, filename: &str) -> (r: Result<DownloadTarget, String>)
    ensures
        match r {
            Ok(t) => download_target(model_id@, filename@) == Ok::<(Seq<char>, Seq<char>, Seq<Seq<char>>), Seq<char>>(target_view(t)),
            Err(e) => download_target(model_id@, filename@) == Err::<(Seq<char>, Seq<char>, Seq<Seq<char>>), Seq<char>>(e@),
        },
{
    let mc = to_chars(model_id);
    let mp = split_chars(mc.as_slice(), '/');
    if mp.len() != 2 {
        return Err(message_with("Invalid model ID format: ", mc.as_slice()));
    }
    let author = match sanitize_component_chars(mp[0].as_slice()) {
        Some(a) => a,
        None => return Err(message_with("Invalid author in model ID: ", mp[0].as_slice())),
    };
    let name = match sanitize_component_chars(mp[1].as_slice()) {
        Some(a) => a,
        None => return Err(message_with("Invalid model name in model ID: ", mp[1].as_slice())),
    };
    let parts = sanitize_filename(filename)?;
    Ok(DownloadTarget { author: from_chars(author.as_slice()), model_name: from_chars(name.as_slice()), file_parts: parts })
}

proof fn lemma_sanitized_parts_err(parts: Seq<Seq<char>>, k: int)
    requires
        0 < k <= parts.len(),
        sanitized_parts(parts.take(k)) is Err,
    ensures
        sanitized_parts(parts) == sanitized_parts(parts.take(k)),
    decreases parts.len() - k,
{
    if k < parts.len() {
        assert(parts.take(k + 1).drop_last() =~= parts.take(k));
        lemma_sanitized_parts_err(parts, k + 1);
    } else {
        assert(parts.take(k) =~= parts);
    }
}

// ---------------------------------------------------------------------------
// Download settings
// ---------------------------------------------------------------------------

/// Download settings (the process-wide copy lives with the application).
#[derive(Debug, Clone, Copy, PartialEq, Eq, Structural)]
pub struct DownloadConfig {
    pub concurrent_threads: usize,
    pub target_chunks: usize,
    pub min_chunk_size: u64,
    pub max_chunk_size: u64,
    pub enable_verification: bool,
    pub max_retries: u32,
    pub download_timeout_secs: u64,
    pub retry_delay_secs: u64,
    pub progress_update_interval_ms: u64,
}

impl DownloadConfig {
    /// The default settings: 8 threads, 20 chunks of 5 to 100 MiB,
    /// verification on, 5 retries, 300 s timeout, 1 s retry delay, progress
    /// every 200 ms.
    pub fn new() -> (r: DownloadConfig)
        ensures
            r.concurrent_threads == 8,
            r.target_chunks == 20,
            r.min_chunk_size == 5 * 1024 * 1024,
            r.max_chunk_size == 100 * 1024 * 1024,
            r.enable_verification,
            r.max_retries == 5,
            r.download_timeout_secs == 300,
            r.retry_delay_secs == 1,
            r.progress_update_interval_ms == 200,
    {
        DownloadConfig {
            concurrent_threads: 8,
            target_chunks: 20,
            min_chunk_size: 5 * 1024 * 1024,
            max_chunk_size: 100 * 1024 * 1024,
            enable_verification: true,
            max_retries: 5,
            download_timeout_secs: 300,
            retry_delay_secs: 1,
            progress_update_interval_ms: 200,
        }
    }
}

/// The download settings that the options ask for (the download part of
/// applying options to the engine).
pub fn download_config_from(options: &crate::models::AppOptions) -> (r: DownloadConfig)
    ensures
        r.concurrent_threads == options.concurrent_threads,
        r.target_chunks == options.num_chunks,
        r.min_chunk_size == options.min_chunk_size,
        r.max_chunk_size == options.max_chunk_size,
        r.enable_verification == options.verification_on_completion,
        r.max_retries == options.max_retries,
        r.download_timeout_secs == options.download_timeout_secs,
        r.retry_delay_secs == options.retry_delay_secs,
        r.progress_update_interval_ms == options.progress_update_interval_ms,
{
    DownloadConfig {
        concurrent_threads: options.concurrent_threads,
        target_chunks: options.num_chunks,
        min_chunk_size: options.min_chunk_size,
        max_chunk_size: options.max_chunk_size,
        enable_verification: options.verification_on_completion,
        max_retries: options.max_retries,
        download_timeout_secs: options.download_timeout_secs,
        retry_delay_secs: options.retry_delay_secs,
        progress_update_interval_ms: options.progress_update_interval_ms,
    }
}

/// `x` clamped to `[lo, hi]`.
pub open spec fn clamped(x: int, lo: int, hi: int) -> int {
    if x < lo {
        lo
    } else if x > hi {
        hi
    } else {
        x
    }
}

/// Chunk size for a file: the file split into the target number of chunks,
/// clamped to the configured minimum and maximum.
pub fn calculate_chunk_size(config: &DownloadConfig, file_size: u64) -> (r: usize)
    requires
        config.target_chunks > 0,
        config.min_chunk_size <= config.max_chunk_size,
        config.max_chunk_size <= usize::MAX,
    ensures
        r == clamped(file_size as int / config.target_chunks as int, config.min_chunk_size as int, config.max_chunk_size as int),
{
    let ideal = file_size / (config.target_chunks as u64);
    let c = if ideal < config.min_chunk_size {
        config.min_chunk_size
    } else if ideal > config.max_chunk_size {
        config.max_chunk_size
    } else {
        ideal
    };
    c as usize
}

// ---------------------------------------------------------------------------
// Chunked transfer plan
// ---------------------------------------------------------------------------

/// The `Range` request header for bytes `start..=stop`.
pub open spec fn range_text(start: nat, stop: nat) -> Seq<char> {
    "bytes="@ + decimal(start) + seq!['-'] + decimal(stop)
}

/// The `Range` header value for bytes `start` to `stop` inclusive.
pub fn range_header(start: u64, stop: u64) -> (r: String)
    ensures
        r@ == range_text(start as nat, stop as nat),
{
    let mut out: Vec<char> = Vec::new();
    let prefix = to_chars("bytes=");
    let mut i: usize = 0;
    while i < prefix.len()
        invariant
            i <= prefix@.len(),
            prefix@ == "bytes="@,
            out@ == prefix@.take(i as int),
        decreases prefix.len() - i,
    {
        out.push(prefix[i]);
        i += 1;
        assert(out@ =~= prefix@.take(i as int));
    }
    assert(prefix@.take(prefix@.len() as int) =~= prefix@);
    push_decimal(&mut out, start);
    out.push('-');
    push_decimal(&mut out, stop);
    assert(out@ =~= range_text(start as nat, stop as nat));
    from_chars(out.as_slice())
}

/// The byte spans of a chunked download: chunk `i` starts at
/// `i * chunk_size` and ends at the chunk's last byte or the file's.
pub open spec fn chunk_span(total: nat, chunk: nat, i: nat) -> (u64, u64) {
    let start: int = (i * chunk) as int;
    let stop: int = if start + chunk - 1 <= total - 1 { start + chunk - 1 } else { total - 1 };
    (start as u64, stop as u64)
}

/// Number of chunks: the size over the chunk size, rounded up.
pub open spec fn chunk_count(total: nat, chunk: nat) -> nat {
    ((total + chunk - 1) as nat) / chunk
}

/// The `(start, stop)` byte spans (inclusive) covering a file of
/// `total_size` bytes in chunks of `chunk_size`.
pub fn chunk_spans(total_size: u64, chunk_size: u64) -> (r: Vec<(u64, u64)>)
    requires
        total_size > 0,
        chunk_size > 0,
    ensures
        r@.len() == chunk_count(total_size as nat, chunk_size as nat),
        forall|i: int| 0 <= i < r@.len() ==> #[trigger] r@[i] == chunk_span(total_size as nat, chunk_size as nat, i as nat),
{
    assert(total_size % chunk_size != 0 ==> total_size / chunk_size < u64::MAX) by (nonlinear_arith)
        requires
            chunk_size > 0,
    ;
    let n: u64 = total_size / chunk_size + if total_size % chunk_size == 0 { 0 } else { 1 };
    assert(n == chunk_count(total_size as nat, chunk_size as nat)) by (nonlinear_arith)
        requires
            n == total_size / chunk_size + if total_size % chunk_size == 0 { 0int } else { 1int },
            chunk_size > 0,
    ;
    let mut r: Vec<(u64, u64)> = Vec::new();
    let mut i: u64 = 0;
    while i < n
        invariant
            i <= n,
            n == chunk_count(total_size as nat, chunk_size as nat),
            total_size > 0,
            chunk_size > 0,
            r@.len() == i,
            forall|j: int| 0 <= j < i ==> #[trigger] r@[j] == chunk_span(total_size as nat, chunk_size as nat, j as nat),
        decreases n - i,
    {
        assert(i * chunk_size < total_size) by (nonlinear_arith)
            requires
                i < n,
                n as int == (total_size + chunk_size - 1) as int / chunk_size as int,
                chunk_size > 0,
        ;
        let start = i * chunk_size;
        let last = total_size - 1;
        let stop = if chunk_size - 1 <= last - start { start + (chunk_size - 1) } else { last };
        r.push((start, stop));
        i += 1;
    }
    r
}

/// The total size in a `Content-Range` value (`bytes 0-0/TOTAL`): the
/// part after the first `/` parsed as a number, 0 when it does not parse;
/// an error when there is no `/`.
pub open spec fn content_range_total_of(v: Seq<char>) -> Result<u64, Seq<char>> {
    let parts = split_on(v, '/');
    if parts.len() < 2 {
        Err("Invalid Content-Range header"@)
    } else {
        match parsed_u64(parts[1]) {
            Some(t) => Ok(t),
            None => Ok(0),
        }
    }
}

/// Reads the total size from a `Content-Range` response header.
pub fn content_range_total(value: &str) -> (r: Result<u64, String>)
    ensures
        match r {
            Ok(t) => content_range_total_of(value@) == Ok::<u64, Seq<char>>(t),
            Err(e) => content_range_total_of(value@) == Err::<u64, Seq<char>>(e@),
        },
{
    let cs = to_chars(value);
    let parts = split_chars(cs.as_slice(), '/');
    if parts.len() < 2 {
        return Err(String::from_str("Invalid Content-Range header"));
    }
    let p = from_chars(parts[1].as_slice());
    match parse_u64(p.as_str()) {
        Some(t) => Ok(t),
        None => Ok(0),
    }
}

} // verus!
