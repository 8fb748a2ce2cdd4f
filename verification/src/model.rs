//! First-run model presence and integrity: classify the model file as healthy,
//! missing, or corrupt, and decide whether a download is needed.

use vstd::prelude::*;
use vstd::string::StrSliceExecFns;
use crate::text::{chars_eq, chars_of, lower_chars, lower_seq};

verus! {

/// Where the first-run fetch pulls `ggml-large-v3.bin` from.
pub const GGML_LARGE_V3_URL: &'static str = "https://huggingface.co/ggerganov/whisper.cpp/resolve/main/ggml-large-v3.bin";

/// The expected SHA-256 of the model, or empty to skip verification.
pub const GGML_LARGE_V3_SHA256: &'static str = "";

/// The classified state of the model file on disk.
#[derive(Debug, Clone, PartialEq, Eq)]
pub enum ModelStatus {
    /// Present and its SHA-256 matches (or no hash is pinned, or it was not hashed).
    Healthy,
    /// Absent — a first-run download is needed.
    Missing,
    /// Present but its SHA-256 does not match; carries the computed hash.
    Corrupt { found: String },
}

/// Whether `a` and `b` are equal ignoring ASCII case.
pub open spec fn same_hex(a: Seq<char>, b: Seq<char>) -> bool {
    lower_seq(a) == lower_seq(b)
}

fn eq_ignore_ascii_case(a: &str, b: &str) -> (r: bool)
    ensures
        r == same_hex(a@, b@),
{
    let la = lower_chars(&chars_of(a));
    let lb = lower_chars(&chars_of(b));
    chars_eq(&la, &lb)
}

/// Classify the model from a presence flag and an optional computed SHA-256
/// (compared ignoring hex case). An empty expected hash disables the check.
pub fn classify(present: bool, computed_sha: Option<&str>, expected_sha: &str) -> (m: ModelStatus)
    ensures
        !present ==> m is Missing,
        present && expected_sha@.len() == 0 ==> m is Healthy,
        present && expected_sha@.len() > 0 ==> match computed_sha {
            None => m is Healthy,
            Some(found) => if same_hex(found@, expected_sha@) {
                m is Healthy
            } else {
                m matches ModelStatus::Corrupt { found: f } && f@ == found@
            },
        },
{
    if !present {
        return ModelStatus::Missing;
    }
    if expected_sha.unicode_len() == 0 {
        return ModelStatus::Healthy;
    }
    match computed_sha {
        Some(found) => if eq_ignore_ascii_case(found, expected_sha) {
            ModelStatus::Healthy
        } else {
            ModelStatus::Corrupt { found: found.to_owned() }
        },
        None => ModelStatus::Healthy,
    }
}

/// A download must run before serving when the file is absent or corrupt.
pub fn needs_download(status: &ModelStatus) -> (b: bool)
    ensures
        b == !(status is Healthy),
{
    match status {
        ModelStatus::Healthy => false,
        _ => true,
    }
}

/// Verify freshly fetched bytes' hash against the expected one (ignoring hex case);
/// an empty expected hash accepts.
pub fn verify_download(computed_sha: &str, expected_sha: &str) -> (b: bool)
    ensures
        b == (expected_sha@.len() == 0 || same_hex(computed_sha@, expected_sha@)),
{
    expected_sha.unicode_len() == 0 || eq_ignore_ascii_case(computed_sha, expected_sha)
}

} // verus!
