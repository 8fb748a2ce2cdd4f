//! The recogniser's `initial_prompt`: a prefix followed by as many vocabulary terms as
//! fit a token budget, with a flag saying whether terms were left out. Tokens are
//! counted approximately, as whitespace- or comma-separated chunks.

use vstd::prelude::*;
use crate::text::{chars_of, is_whitespace, is_ws, push_chars, push_str, slice_chars, string_from_chars};

verus! {

/// A built prompt and whether the vocabulary was truncated to fit.
#[derive(Debug, Clone, PartialEq, Eq)]
pub struct InitialPrompt {
    pub text: String,
    pub truncated: bool,
}

/// A character that separates token chunks: whitespace or a comma.
pub open spec fn is_chunk_sep(c: char) -> bool {
    is_ws(c) || c == ','
}

/// The number of maximal runs of non-separator characters in `s`.
pub open spec fn chunk_count(s: Seq<char>) -> nat
    decreases s.len(),
{
    if s.len() == 0 {
        0
    } else {
        chunk_count(s.drop_last()) + if !is_chunk_sep(s.last()) && (s.len() == 1
            || is_chunk_sep(s[s.len() - 2])) {
            1nat
        } else {
            0nat
        }
    }
}

/// `s` with trailing commas removed.
pub open spec fn strip_commas(s: Seq<char>) -> Seq<char>
    decreases s.len(),
{
    if s.len() > 0 && s.last() == ',' {
        strip_commas(s.drop_last())
    } else {
        s
    }
}

/// The prompt after offering `vocab` in order, and whether a term did not fit: each
/// term is appended as ` term,` while the whole stays within `max` chunks; the first
/// term that does not fit stops the list.
pub open spec fn prompt_fold(start: Seq<char>, vocab: Seq<Seq<char>>, max: nat) -> (Seq<char>, bool)
    decreases vocab.len(),
{
    if vocab.len() == 0 {
        (start, false)
    } else {
        let (t, stopped) = prompt_fold(start, vocab.drop_last(), max);
        if stopped {
            (t, true)
        } else {
            let c = t + " "@ + vocab.last() + ","@;
            if chunk_count(c) > max {
                (t, true)
            } else {
                (c, false)
            }
        }
    }
}

/// The built prompt: `<prefix> Vocabulary: term1, term2, …` (just the prefix when there
/// is no vocabulary), without trailing commas, and whether terms were left out.
pub open spec fn prompt_of(prefix: Seq<char>, vocab: Seq<Seq<char>>, max: nat) -> (Seq<char>, bool) {
    let start = if vocab.len() == 0 {
        prefix
    } else {
        prefix + " Vocabulary:"@
    };
    let (t, truncated) = prompt_fold(start, vocab, max);
    (strip_commas(t), truncated)
}

/// Approximate token count of `s`: its whitespace- or comma-separated chunks.
fn estimate_tokens(s: &[char]) -> (n: usize)
    ensures
        n == chunk_count(s@),
{
    let mut n: usize = 0;
    let mut i: usize = 0;
    while i < s.len()
        invariant
            i <= s@.len(),
            n == chunk_count(s@.subrange(0, i as int)),
            n <= i,
        decreases s@.len() - i,
    {
        let c = s[i];
        let sep = is_whitespace(c) || c == ',';
        let prev_sep = i == 0 || is_whitespace(s[i - 1]) || s[i - 1] == ',';
        assert(s@.subrange(0, i + 1).drop_last() =~= s@.subrange(0, i as int));
        if !sep && prev_sep {
            n += 1;
        }
        i += 1;
    }
    assert(s@.subrange(0, s@.len() as int) =~= s@);
    n
}

proof fn lemma_prompt_stopped_sticks(start: Seq<char>, vocab: Seq<Seq<char>>, max: nat, i: int)
    requires
        0 <= i <= vocab.len(),
        prompt_fold(start, vocab.subrange(0, i), max).1,
    ensures
        prompt_fold(start, vocab, max) == prompt_fold(start, vocab.subrange(0, i), max),
    decreases vocab.len() - i,
{
    if i < vocab.len() {
        assert(vocab.subrange(0, i + 1).drop_last() =~= vocab.subrange(0, i));
        lemma_prompt_stopped_sticks(start, vocab, max, i + 1);
    } else {
        assert(vocab.subrange(0, i) =~= vocab);
    }
}

/// Build `"<prefix> Vocabulary: term1, term2, …"`, including as many vocabulary terms
/// as fit within `max_tokens`.
pub fn build_initial_prompt(prefix: &str, vocab: &[String], max_tokens: usize) -> (p: InitialPrompt)
    ensures
        (p.text@, p.truncated) == prompt_of(
            prefix@,
            vocab@.map_values(|t: String| t@),
            max_tokens as nat,
        ),
{
    let ghost vv = vocab@.map_values(|t: String| t@);
    let mut text = chars_of(prefix);
    if vocab.len() > 0 {
        push_str(&mut text, " Vocabulary:");
    }
    let ghost start = text@;
    let mut truncated = false;
    let mut i: usize = 0;
    assert(vv.subrange(0, 0) =~= Seq::<Seq<char>>::empty());
    while i < vocab.len() && !truncated
        invariant
            i <= vocab@.len(),
            vv == vocab@.map_values(|t: String| t@),
            !truncated ==> prompt_fold(start, vv.subrange(0, i as int), max_tokens as nat) == (
                text@,
                false,
            ),
            truncated ==> prompt_fold(start, vv, max_tokens as nat) == (text@, true),
        decreases vocab@.len() - i + if truncated { 0int } else { 1int },
    {
        let mut candidate = slice_chars(&text, 0, text.len());
        push_str(&mut candidate, " ");
        let term = chars_of(vocab[i].as_str());
        push_chars(&mut candidate, &term);
        push_str(&mut candidate, ",");
        assert(vv.subrange(0, i + 1).drop_last() =~= vv.subrange(0, i as int));
        assert(text@.subrange(0, text@.len() as int) =~= text@);
        assert(candidate@ =~= text@ + " "@ + vv[i as int] + ","@);
        if estimate_tokens(&candidate) > max_tokens {
            truncated = true;
            proof {
                lemma_prompt_stopped_sticks(start, vv, max_tokens as nat, i + 1);
            }
        } else {
            text = candidate;
            i += 1;
        }
    }
    if !truncated {
        assert(vv.subrange(0, vocab@.len() as int) =~= vv);
    }
    let mut j: usize = text.len();
    assert(text@.subrange(0, j as int) =~= text@);
    while j > 0 && text[j - 1] == ','
        invariant
            j <= text@.len(),
            strip_commas(text@) == strip_commas(text@.subrange(0, j as int)),
        decreases j,
    {
        assert(text@.subrange(0, j as int).drop_last() =~= text@.subrange(0, j - 1));
        j -= 1;
    }
    let kept = slice_chars(&text, 0, j);
    InitialPrompt { text: string_from_chars(&kept), truncated }
}

proof fn lemma_fold_within(start: Seq<char>, vocab: Seq<Seq<char>>, max: nat)
    requires
        chunk_count(start) <= max,
    ensures
        chunk_count(prompt_fold(start, vocab, max).0) <= max,
    decreases vocab.len(),
{
    if vocab.len() > 0 {
        lemma_fold_within(start, vocab.drop_last(), max);
    }
}

proof fn lemma_strip_commas_keeps_chunks(s: Seq<char>)
    ensures
        chunk_count(strip_commas(s)) == chunk_count(s),
    decreases s.len(),
{
    if s.len() > 0 && s.last() == ',' {
        lemma_strip_commas_keeps_chunks(s.drop_last());
    }
}

/// The built prompt stays within the token budget whenever its fixed start (the
/// prefix and, with vocabulary, ` Vocabulary:`) does; stripping the trailing comma
/// never changes the count.
pub proof fn lemma_prompt_within_budget(prefix: Seq<char>, vocab: Seq<Seq<char>>, max: nat)
    requires
        chunk_count(
            if vocab.len() == 0 {
                prefix
            } else {
                prefix + " Vocabulary:"@
            },
        ) <= max,
    ensures
        chunk_count(prompt_of(prefix, vocab, max).0) <= max,
{
    let start = if vocab.len() == 0 {
        prefix
    } else {
        prefix + " Vocabulary:"@
    };
    lemma_fold_within(start, vocab, max);
    lemma_strip_commas_keeps_chunks(prompt_fold(start, vocab, max).0);
}

/// The prompt for a chained clip: the configured prompt, then the running transcript
/// tail after a space; either alone when the other is empty.
pub open spec fn chained(base: Seq<char>, tail: Seq<char>) -> Seq<char> {
    if tail.len() == 0 {
        base
    } else if base.len() == 0 {
        tail
    } else {
        base + " "@ + tail
    }
}

/// Chain the running transcript tail onto a clip's initial prompt.
pub fn chain_prompt(base: &str, tail: &str) -> (p: String)
    ensures
        p@ == chained(base@, tail@),
{
    let b = chars_of(base);
    let t = chars_of(tail);
    if t.len() == 0 {
        return base.to_owned();
    }
    if b.len() == 0 {
        return tail.to_owned();
    }
    let mut v = b;
    push_str(&mut v, " ");
    push_chars(&mut v, &t);
    string_from_chars(&v)
}

} // verus!
