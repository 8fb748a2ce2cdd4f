//! Model-download progress and integrity: the whole percent a transfer has reached, a
//! throttle that reports each new percent once, the SHA-256 of the bytes as they stream
//! past, and its lowercase-hex form checked against the pinned hash.

use vstd::prelude::*;
use sha2::{Digest, Sha256};
use crate::model::{same_hex, verify_download};
use crate::text::string_from_chars;

verus! {

/// How a download progressed: bytes received so far and the total, if the server
/// reported one.
#[derive(Debug, Clone, Copy, PartialEq, Eq)]
pub struct Progress {
    pub received: u64,
    pub total: Option<u64>,
}

/// `a * b`, or `u64::MAX` when that overflows.
pub open spec fn saturating_mul_u64(a: nat, b: nat) -> nat {
    if a * b > u64::MAX {
        u64::MAX as nat
    } else {
        a * b
    }
}

/// Whole-percent complete: `received * 100 / total` (the product saturating at
/// `u64::MAX`), capped at 100; unknown without a non-zero total.
pub open spec fn percent_of(p: Progress) -> Option<u8> {
    match p.total {
        None => None,
        Some(t) => if t == 0 {
            None
        } else {
            let q = saturating_mul_u64(p.received as nat, 100) / (t as nat);
            Some(if q > 100 { 100u8 } else { q as u8 })
        },
    }
}

impl Progress {
    /// Whole-percent complete, if a total is known.
    pub fn percent(&self) -> (r: Option<u8>)
        ensures
            r == percent_of(*self),
    {
        match self.total {
            None => None,
            Some(total) => {
                if total == 0 {
                    None
                } else {
                    let scaled: u64 = if self.received > u64::MAX / 100 {
                        u64::MAX
                    } else {
                        self.received * 100
                    };
                    let q = scaled / total;
                    Some(if q > 100 { 100u8 } else { q as u8 })
                }
            },
        }
    }
}

/// Whole-percent throttle for download progress: each new whole percent is reported
/// once; repeats and the percent-unknown phase report nothing.
#[derive(Debug, Clone, Copy)]
pub struct PercentThrottle {
    last: Option<u8>,
}

impl PercentThrottle {
    /// The last percent reported, if any.
    pub closed spec fn last_reported(&self) -> Option<u8> {
        self.last
    }

    /// A throttle that has reported nothing yet.
    pub fn new() -> (t: PercentThrottle)
        ensures
            t.last_reported() is None,
    {
        PercentThrottle { last: None }
    }

    /// `Some(pct)` only when the whole percent moves to a value other than the last
    /// one reported; `None` for a repeat or an unknown percent.
    pub fn update(&mut self, pct: Option<u8>) -> (r: Option<u8>)
        ensures
            match pct {
                Some(p) => if old(self).last_reported() != Some(p) {
                    r == Some(p) && final(self).last_reported() == Some(p)
                } else {
                    r is None && final(self).last_reported() == old(self).last_reported()
                },
                None => r is None && final(self).last_reported() == old(self).last_reported(),
            },
    {
        match pct {
            Some(p) => {
                let fresh = match self.last {
                    Some(l) => l != p,
                    None => true,
                };
                if fresh {
                    self.last = Some(p);
                    Some(p)
                } else {
                    None
                }
            },
            None => None,
        }
    }
}

/// The lowercase hex digit for `d < 16`.
pub open spec fn hex_digit(d: nat) -> char {
    if d < 10 {
        ((d + 48) as u32) as char
    } else {
        ((d + 87) as u32) as char
    }
}

/// The lowercase-hex encoding of `bytes`, two digits per byte.
pub open spec fn hex_of(bytes: Seq<u8>) -> Seq<char>
    decreases bytes.len(),
{
    if bytes.len() == 0 {
        Seq::empty()
    } else {
        hex_of(bytes.drop_last()) + seq![
            hex_digit(bytes.last() as nat / 16),
            hex_digit(bytes.last() as nat % 16),
        ]
    }
}

fn hex_char(d: u8) -> (c: char)
    requires
        d < 16,
    ensures
        c == hex_digit(d as nat),
{
    if d < 10 {
        (d + 48) as char
    } else {
        (d + 87) as char
    }
}

/// Lowercase-hex encode a byte slice.
pub fn hex_lower(bytes: &[u8]) -> (s: String)
    ensures
        s@ == hex_of(bytes@),
{
    let mut v: Vec<char> = Vec::new();
    let mut i: usize = 0;
    while i < bytes.len()
        invariant
            i <= bytes@.len(),
            v@ == hex_of(bytes@.subrange(0, i as int)),
        decreases bytes@.len() - i,
    {
        let b = bytes[i];
        v.push(hex_char(b / 16));
        v.push(hex_char(b % 16));
        assert(bytes@.subrange(0, i + 1).drop_last() =~= bytes@.subrange(0, i as int));
        assert(v@ =~= hex_of(bytes@.subrange(0, i + 1)));
        i += 1;
    }
    assert(bytes@.subrange(0, bytes@.len() as int) =~= bytes@);
    string_from_chars(&v)
}

/// sha2's running SHA-256 hasher. Verus cannot take a declaration of `sha2::Sha256`
/// (it is `CoreWrapper` over typenum-sized cores), so the hasher is held here, opaque,
/// and what it has been fed is named by `sha_fed`.
#[verifier::external_body]
pub struct Sha256Stream {
    inner: Sha256,
}

/// The bytes a hasher has been fed so far, in order.
pub uninterp spec fn sha_fed(h: Sha256Stream) -> Seq<u8>;

/// The SHA-256 digest of `bytes` (FIPS 180-4), as sha2 computes it.
pub uninterp spec fn sha256_digest(bytes: Seq<u8>) -> Seq<u8>;

/// `<Sha256 as Digest>::new`: a hasher that has been fed nothing.
#[verifier::external_body]
fn sha_new() -> (h: Sha256Stream)
    ensures
        sha_fed(h) == Seq::<u8>::empty(),
{
    Sha256Stream { inner: Sha256::new() }
}

/// `<Sha256 as Digest>::update`: the hasher has now also been fed `chunk`.
#[verifier::external_body]
fn sha_update(h: &mut Sha256Stream, chunk: &[u8])
    ensures
        sha_fed(*final(h)) == sha_fed(*old(h)) + chunk@,
{
    h.inner.update(chunk);
}

/// `<Sha256 as Digest>::finalize`: the 32-byte digest of everything the hasher was fed.
#[verifier::external_body]
fn sha_finish(h: Sha256Stream) -> (d: Vec<u8>)
    ensures
        d@ == sha256_digest(sha_fed(h)),
        d@.len() == 32,
{
    h.inner.finalize().to_vec()
}

/// The SHA-256 of a download, fed chunk by chunk as the bytes arrive.
pub struct DownloadDigest {
    hasher: Sha256Stream,
}

impl View for DownloadDigest {
    type V = Seq<u8>;

    /// The bytes fed so far.
    closed spec fn view(&self) -> Seq<u8> {
        sha_fed(self.hasher)
    }
}

impl DownloadDigest {
    /// A digest of no bytes yet.
    pub fn new() -> (d: DownloadDigest)
        ensures
            d@ == Seq::<u8>::empty(),
    {
        DownloadDigest { hasher: sha_new() }
    }

    /// Feed the next chunk of the download.
    pub fn absorb(&mut self, chunk: &[u8])
        ensures
            final(self)@ == old(self)@ + chunk@,
    {
        sha_update(&mut self.hasher, chunk);
    }

    /// The lowercase-hex SHA-256 of every byte fed.
    pub fn finish(self) -> (hex: String)
        ensures
            hex@ == hex_of(sha256_digest(self@)),
            hex@.len() == 64,
    {
        let d = sha_finish(self.hasher);
        proof {
            lemma_hex_len(d@);
        }
        hex_lower(&d)
    }

    /// Finish the digest and check it against the pinned `expected_sha` (an empty pin
    /// skips the check): the lowercase-hex digest, and whether the download passes.
    pub fn finish_and_verify(self, expected_sha: &str) -> (r: (String, bool))
        ensures
            r.0@ == hex_of(sha256_digest(self@)),
            r.1 == (expected_sha@.len() == 0 || same_hex(hex_of(sha256_digest(self@)), expected_sha@)),
    {
        let hex = self.finish();
        let ok = verify_download(hex.as_str(), expected_sha);
        (hex, ok)
    }
}

proof fn lemma_hex_len(bytes: Seq<u8>)
    ensures
        hex_of(bytes).len() == 2 * bytes.len(),
    decreases bytes.len(),
{
    if bytes.len() > 0 {
        lemma_hex_len(bytes.drop_last());
    }
}

} // verus!
