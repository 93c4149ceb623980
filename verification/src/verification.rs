//! Hash-verification settings and session counters.

use crate::models::VerifyOutcome;
use sha2::Digest;
use crate::text::{byte_cut, chars_in_bytes, copy_range, from_chars, has_byte_cut, str_eq, to_chars};
use vstd::prelude::*;

verus! {

/// Hash-verification settings (the process-wide copy lives with the
/// application).
#[derive(Debug, Clone, Copy, PartialEq, Eq, Structural)]
pub struct VerificationConfig {
    pub concurrent_verifications: usize,
    pub buffer_size: usize,
    pub update_interval_iterations: usize,
}

impl VerificationConfig {
    /// The defaults: four verifications at a time, 1 MiB reads, progress
    /// every 100 reads.
    pub fn new() -> (r: VerificationConfig)
        ensures
            r.concurrent_verifications == 4,
            r.buffer_size == 1024 * 1024,
            r.update_interval_iterations == 100,
    {
        VerificationConfig { concurrent_verifications: 4, buffer_size: 1024 * 1024, update_interval_iterations: 100 }
    }
}

/// The verification settings that the options ask for.
pub fn verification_config_from(options: &crate::models::AppOptions) -> (r: VerificationConfig)
    ensures
        r.concurrent_verifications == options.concurrent_verifications,
        r.buffer_size == options.verification_buffer_size,
        r.update_interval_iterations == options.verification_update_interval,
{
    VerificationConfig {
        concurrent_verifications: options.concurrent_verifications,
        buffer_size: options.verification_buffer_size,
        update_interval_iterations: options.verification_update_interval,
    }
}

/// Session counts of hash checks that passed and failed.
#[derive(Debug, Default, Clone, Copy, PartialEq, Eq, Structural)]
pub struct VerificationResultCounters {
    pub ok: usize,
    pub failed: usize,
}

/// The hash result can be reported: a mismatch quotes the first sixteen
/// bytes of both hashes, so each has a character boundary at byte 16.
pub open spec fn verdict_ok(expected: Seq<char>, computed: Result<String, String>) -> bool {
    match computed {
        Ok(h) => h@ != expected ==> has_byte_cut(expected, 16) && has_byte_cut(h@, 16),
        Err(_) => true,
    }
}

/// The first sixteen bytes of `s` (as `&s[..16]`).
pub open spec fn head16(s: Seq<char>) -> Seq<char> {
    s.take(byte_cut(s, 16))
}

/// The outcome (as [`outcome_view`] gives it) of a hash check of
/// `filename` against `expected` given the computed hash (or why it could
/// not be computed), and its status line.
pub open spec fn verdict_of(filename: Seq<char>, expected: Seq<char>, computed: Result<String, String>) -> ((nat, Seq<char>, Seq<char>, Seq<char>), Seq<char>) {
    match computed {
        Ok(h) => if h@ == expected {
            ((0, filename, Seq::<char>::empty(), Seq::<char>::empty()), "✓ Hash verified for "@ + filename)
        } else {
            (
                (1, filename, expected, h@),
                "✗ Hash mismatch for "@ + filename + ": expected "@ + head16(expected) + "..., got "@ + head16(h@)
                    + "..."@,
            )
        },
        Err(e) => ((2, filename, e@, Seq::<char>::empty()), "Warning: Failed to verify "@ + filename + ": "@ + e@),
    }
}

/// The outcome as plain values: its kind, the file name and, for a
/// mismatch, the two hashes.
pub open spec fn outcome_view(o: VerifyOutcome) -> (nat, Seq<char>, Seq<char>, Seq<char>) {
    match o {
        VerifyOutcome::Verified { filename } => (0, filename@, Seq::<char>::empty(), Seq::<char>::empty()),
        VerifyOutcome::Mismatch { filename, expected_sha256, actual_sha256 } => (1, filename@, expected_sha256@, actual_sha256@),
        VerifyOutcome::Error { filename, reason } => (2, filename@, reason@, Seq::<char>::empty()),
        VerifyOutcome::Missing { filename } => (3, filename@, Seq::<char>::empty(), Seq::<char>::empty()),
    }
}

/// Whether a mismatch can quote `s`: byte 16 is a character boundary.
pub fn quotable(s: &str) -> (r: bool)
    ensures
        r == has_byte_cut(s@, 16),
{
    let cs = to_chars(s);
    chars_in_bytes(cs.as_slice(), 16).is_some()
}

fn prefix16(s: &str) -> (r: String)
    requires
        has_byte_cut(s@, 16),
    ensures
        r@ == head16(s@),
{
    let cs = to_chars(s);
    let k = match chars_in_bytes(cs.as_slice(), 16) {
        Some(k) => k,
        None => 0,
    };
    let t = copy_range(cs.as_slice(), 0, k);
    assert(t@ =~= s@.take(byte_cut(s@, 16)));
    from_chars(t.as_slice())
}

/// Judges a hash check: equal hashes pass; different ones are a mismatch
/// (the registry entry is then marked); a hash that could not be computed
/// is an error.
pub fn verification_verdict(filename: &str, expected: &str, computed: Result<String, String>) -> (r: (VerifyOutcome, String))
    requires
        verdict_ok(expected@, computed),
    ensures
        outcome_view(r.0) == verdict_of(filename@, expected@, computed).0,
        r.1@ == verdict_of(filename@, expected@, computed).1,
{
    let name = String::from_str(filename);
    match computed {
        Ok(h) => {
            if str_eq(h.as_str(), expected) {
                let mut m = String::from_str("✓ Hash verified for ");
                m.append(filename);
                (VerifyOutcome::Verified { filename: name }, m)
            } else {
                let mut m = String::from_str("✗ Hash mismatch for ");
                m.append(filename);
                m.append(": expected ");
                let a = prefix16(expected);
                m.append(a.as_str());
                m.append("..., got ");
                let b = prefix16(h.as_str());
                m.append(b.as_str());
                m.append("...");
                (VerifyOutcome::Mismatch { filename: name, expected_sha256: String::from_str(expected), actual_sha256: h }, m)
            }
        },
        Err(e) => {
            let mut m = String::from_str("Warning: Failed to verify ");
            m.append(filename);
            m.append(": ");
            m.append(e.as_str());
            (VerifyOutcome::Error { filename: name, reason: e }, m)
        },
    }
}

/// A file that is gone when its hash check comes up.
pub fn missing_verdict(filename: &str) -> (r: (VerifyOutcome, String))
    ensures
        outcome_view(r.0) == (3nat, filename@, Seq::<char>::empty(), Seq::<char>::empty()),
        r.1@ == "Error: Cannot verify "@ + filename@ + ", file not found"@,
{
    let mut m = String::from_str("Error: Cannot verify ");
    m.append(filename);
    m.append(", file not found");
    (VerifyOutcome::Missing { filename: String::from_str(filename) }, m)
}

// ---------------------------------------------------------------------------
// Hashing
// ---------------------------------------------------------------------------

/// A `sha2::Sha256` hasher.  Its state is opaque; what matters of it is
/// the bytes it has been fed ([`sha256_fed`]).
#[verifier::external_body]
pub struct Sha256State {
    inner: sha2::Sha256,
}

/// The bytes fed to a SHA-256 hasher since it was made.
pub uninterp spec fn sha256_fed(h: Sha256State) -> Seq<u8>;

/// The SHA-256 digest of `data`.
pub uninterp spec fn sha256_digest(data: Seq<u8>) -> Seq<u8>;

/// `sha2::Sha256::new` (through `Digest::new`): a hasher that has been fed
/// nothing.
#[verifier::external_body]
fn sha256_new() -> (h: Sha256State)
    ensures
        sha256_fed(h) == Seq::<u8>::empty(),
{
    Sha256State { inner: sha2::Sha256::new() }
}

/// `Digest::update` on a `sha2::Sha256`: the block is appended to what the
/// hasher has been fed.
#[verifier::external_body]
fn sha256_update(h: &mut Sha256State, block: &[u8])
    ensures
        sha256_fed(*final(h)) == sha256_fed(*old(h)) + block@,
{
    h.inner.update(block)
}

/// `Digest::finalize` on a `sha2::Sha256`, as bytes: the 32-byte SHA-256
/// digest of everything the hasher was fed.
#[verifier::external_body]
fn sha256_finalize(h: Sha256State) -> (r: Vec<u8>)
    ensures
        r@ == sha256_digest(sha256_fed(h)),
        r@.len() == 32,
{
    h.inner.finalize().to_vec()
}

/// The lower-case hexadecimal digit for `n` (below 16).
pub open spec fn hex_digit(n: int) -> char {
    if n < 10 {
        (48 + n) as char
    } else {
        (87 + n) as char
    }
}

/// `s` in lower-case hexadecimal, two digits per byte, high digit first.
pub open spec fn hex_lower(s: Seq<u8>) -> Seq<char>
    decreases s.len(),
{
    if s.len() == 0 {
        Seq::<char>::empty()
    } else {
        hex_lower(s.drop_last()) + seq![hex_digit(s.last() as int / 16), hex_digit(s.last() as int % 16)]
    }
}

/// `hex::encode`: each byte as two lower-case hexadecimal digits, high
/// digit first, in order.
#[verifier::external_body]
fn hex_encode(data: &[u8]) -> (r: String)
    ensures
        r@ == hex_lower(data@),
{
    hex::encode(data)
}

/// A SHA-256 over a file read block by block, with the count of bytes and
/// of blocks fed so far (the progress that a verification reports).
pub struct FileHasher {
    state: Sha256State,
    bytes: u64,
    blocks: u64,
}

impl FileHasher {
    /// The bytes fed so far.
    pub closed spec fn fed(&self) -> Seq<u8> {
        sha256_fed(self.state)
    }

    /// The number of blocks fed so far.
    pub closed spec fn blocks_fed(&self) -> nat {
        self.blocks as nat
    }

    /// The byte count agrees with the bytes fed.
    pub closed spec fn wf(&self) -> bool {
        self.bytes == sha256_fed(self.state).len()
    }

    /// A hasher that has been fed nothing.
    pub fn new() -> (r: FileHasher)
        ensures
            r.wf(),
            r.fed() == Seq::<u8>::empty(),
            r.blocks_fed() == 0,
    {
        FileHasher { state: sha256_new(), bytes: 0, blocks: 0 }
    }

    /// The number of bytes fed so far.
    pub fn bytes_fed(&self) -> (r: u64)
        requires
            self.wf(),
        ensures
            r == self.fed().len(),
    {
        self.bytes
    }

    /// The number of blocks fed so far.
    pub fn blocks_count(&self) -> (r: u64)
        ensures
            r == self.blocks_fed(),
    {
        self.blocks
    }

    /// Feeds the next block read from the file.  The running byte count is
    /// returned for publishing when the block count reaches a multiple of
    /// `interval` or the bytes reach `total`, and `None` otherwise.
    pub fn feed(&mut self, block: &[u8], interval: usize, total: u64) -> (r: Option<u64>)
        requires
            old(self).wf(),
            old(self).fed().len() + block@.len() <= u64::MAX,
            old(self).blocks_fed() < u64::MAX,
            interval > 0,
        ensures
            final(self).wf(),
            final(self).fed() == old(self).fed() + block@,
            final(self).blocks_fed() == old(self).blocks_fed() + 1,
            r == (if final(self).blocks_fed() % (interval as nat) == 0 || final(self).fed().len() >= total {
                Some(final(self).fed().len() as u64)
            } else {
                None
            }),
    {
        sha256_update(&mut self.state, block);
        self.bytes = self.bytes + block.len() as u64;
        self.blocks = self.blocks + 1;
        if self.blocks % (interval as u64) == 0 || self.bytes >= total {
            Some(self.bytes)
        } else {
            None
        }
    }

    /// The lower-case hexadecimal SHA-256 of everything fed.
    pub fn finish_hex(self) -> (r: String)
        ensures
            r@ == hex_lower(sha256_digest(self.fed())),
    {
        let digest = sha256_finalize(self.state);
        hex_encode(digest.as_slice())
    }
}

} // verus!
