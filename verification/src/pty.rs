//! Pure helpers for the `talk-to` PTY wrapper: splitting the wrapped command from its
//! arguments, and the bytes injected into the child PTY. Injected text never carries a
//! trailing newline (review before Enter); the streaming live preview is revised in
//! place by erasing its unstable tail with DEL bytes and retyping.

use vstd::prelude::*;
use vstd::slice::{slice_subrange, slice_to_vec};
use vstd::string::StrSliceExecFns;
use vstd::utf8::{encode_scalar, encode_utf8};
use crate::text::{chars_of, slice_chars, string_from_chars};

verus! {

/// Why `talk-to`'s arguments could not be turned into a command to wrap.
#[derive(Debug, Clone, PartialEq, Eq, Structural)]
pub enum PtyError {
    /// `talk-to` was invoked with no command to wrap.
    EmptyCommand,
}

/// Split `talk-to`'s arguments into the wrapped program and its arguments, passed
/// through verbatim.
pub fn split_command(args: &[String]) -> (r: Result<(&str, &[String]), PtyError>)
    ensures
        args@.len() == 0 ==> r == Err::<(&str, &[String]), PtyError>(PtyError::EmptyCommand),
        args@.len() > 0 ==> (r matches Ok((p, rest)) && p@ == args@[0]@ && rest@ == args@.subrange(
            1,
            args@.len() as int,
        )),
{
    if args.len() == 0 {
        return Err(PtyError::EmptyCommand);
    }
    let program = args[0].as_str();
    let rest = slice_subrange(args, 1, args.len());
    Ok((program, rest))
}

/// `s` with every trailing `\r` and `\n` removed.
pub open spec fn strip_trailing_eol(s: Seq<char>) -> Seq<char>
    decreases s.len(),
{
    if s.len() > 0 && (s.last() == '\r' || s.last() == '\n') {
        strip_trailing_eol(s.drop_last())
    } else {
        s
    }
}

/// The UTF-8 bytes of `s`.
fn utf8_bytes(s: &[char]) -> (b: Vec<u8>)
    ensures
        b@ == encode_utf8(s@),
{
    let st = string_from_chars(s);
    let bytes = st.as_str().as_bytes();
    slice_to_vec(bytes)
}

/// The bytes to write into the child PTY for `text`: its UTF-8 encoding with every
/// trailing carriage return and newline removed, so nothing is ever submitted.
pub fn injection_bytes(text: &str) -> (b: Vec<u8>)
    ensures
        b@ == encode_utf8(strip_trailing_eol(text@)),
{
    let t = chars_of(text);
    let mut end = t.len();
    assert(t@.subrange(0, end as int) =~= t@);
    while end > 0 && (t[end - 1] == '\r' || t[end - 1] == '\n')
        invariant
            end <= t@.len(),
            strip_trailing_eol(text@) == strip_trailing_eol(t@.subrange(0, end as int)),
        decreases end,
    {
        assert(t@.subrange(0, end as int).drop_last() =~= t@.subrange(0, end - 1));
        end -= 1;
    }
    assert(t@.subrange(0, t@.len() as int) =~= t@);
    let kept = slice_chars(&t, 0, end);
    utf8_bytes(&kept)
}

/// The erase byte: ASCII DEL, which deletes one logical character to the left.
pub open spec fn erase() -> u8 {
    0x7f
}

/// `n` erase bytes.
pub open spec fn erases(n: nat) -> Seq<u8> {
    Seq::new(n, |i: int| erase())
}

/// Codepoint count of `text` — the number of erase presses that delete it.
pub fn codepoint_len(text: &str) -> (n: usize)
    ensures
        n == text@.len(),
{
    text.unicode_len()
}

fn push_erases(out: &mut Vec<u8>, n: usize)
    ensures
        final(out)@ == old(out)@ + erases(n as nat),
{
    let mut i: usize = 0;
    while i < n
        invariant
            i <= n,
            out@ == old(out)@ + erases(i as nat),
        decreases n - i,
    {
        out.push(0x7f);
        i += 1;
        assert(out@ =~= old(out)@ + erases(i as nat));
    }
}

fn push_bytes(out: &mut Vec<u8>, more: &[u8])
    ensures
        final(out)@ == old(out)@ + more@,
{
    let mut i: usize = 0;
    while i < more.len()
        invariant
            i <= more@.len(),
            out@ == old(out)@ + more@.subrange(0, i as int),
        decreases more@.len() - i,
    {
        out.push(more[i]);
        i += 1;
    }
    assert(more@.subrange(0, more@.len() as int) =~= more@);
}

/// Bytes to revise the live preview in place: erase the previous unstable tail
/// (`old_tail_len` characters), then type the newly committed text and the new tail.
pub fn edit_bytes(old_tail_len: usize, newly_committed: &str, new_tail: &str) -> (b: Vec<u8>)
    ensures
        b@ == erases(old_tail_len as nat) + encode_utf8(newly_committed@) + encode_utf8(new_tail@),
{
    let mut out: Vec<u8> = Vec::new();
    push_erases(&mut out, old_tail_len);
    let c = newly_committed.as_bytes();
    push_bytes(&mut out, c);
    let t = new_tail.as_bytes();
    push_bytes(&mut out, t);
    assert(out@ =~= erases(old_tail_len as nat) + encode_utf8(newly_committed@) + encode_utf8(new_tail@));
    out
}

/// Bytes to finalize a streaming dictation: erase the whole preview (`buffer_len`
/// characters) and type the final text without trailing newlines.
pub fn finalize_bytes(buffer_len: usize, final_text: &str) -> (b: Vec<u8>)
    ensures
        b@ == erases(buffer_len as nat) + encode_utf8(strip_trailing_eol(final_text@)),
{
    let typed = injection_bytes(final_text);
    let mut out: Vec<u8> = Vec::new();
    push_erases(&mut out, buffer_len);
    push_bytes(&mut out, &typed);
    assert(out@ =~= erases(buffer_len as nat) + encode_utf8(strip_trailing_eol(final_text@)));
    out
}

/// Tracks the live preview's stable prefix and unstable tail, in characters.
#[derive(Debug, Clone)]
pub struct PreviewCursor {
    stable_len: usize,
    tail_len: usize,
}

impl View for PreviewCursor {
    type V = (nat, nat);

    /// `(stable prefix length, unstable tail length)`.
    closed spec fn view(&self) -> (nat, nat) {
        (self.stable_len as nat, self.tail_len as nat)
    }
}

impl PreviewCursor {
    /// A fresh cursor with an empty preview.
    pub fn new() -> (c: PreviewCursor)
        ensures
            c@ == (0nat, 0nat),
    {
        PreviewCursor { stable_len: 0, tail_len: 0 }
    }

    /// The stable prefix and unstable tail lengths, in characters.
    pub fn lens(&self) -> (r: (usize, usize))
        ensures
            r.0 == self@.0,
            r.1 == self@.1,
    {
        (self.stable_len, self.tail_len)
    }

    /// Total characters displayed (stable prefix plus unstable tail).
    pub fn preview_len(&self) -> (n: usize)
        requires
            self@.0 + self@.1 <= usize::MAX,
        ensures
            n == self@.0 + self@.1,
    {
        self.stable_len + self.tail_len
    }

    /// Apply one live edit: erase the old tail, type the committed text (folded into
    /// the stable prefix) and the new tail. The stable prefix is never erased.
    pub fn apply_edit(&mut self, committed: &str, tail: &str) -> (b: Vec<u8>)
        requires
            old(self)@.0 + committed@.len() <= usize::MAX,
        ensures
            b@ == erases(old(self)@.1) + encode_utf8(committed@) + encode_utf8(tail@),
            final(self)@ == (old(self)@.0 + committed@.len(), tail@.len()),
    {
        let bytes = edit_bytes(self.tail_len, committed, tail);
        self.stable_len = self.stable_len + codepoint_len(committed);
        self.tail_len = codepoint_len(tail);
        bytes
    }

    /// Finalize: erase the whole preview and type `final_text`; the cursor resets.
    pub fn finalize(&mut self, final_text: &str) -> (b: Vec<u8>)
        requires
            old(self)@.0 + old(self)@.1 <= usize::MAX,
        ensures
            b@ == erases(old(self)@.0 + old(self)@.1) + encode_utf8(strip_trailing_eol(final_text@)),
            final(self)@ == (0nat, 0nat),
    {
        let bytes = finalize_bytes(self.preview_len(), final_text);
        self.stable_len = 0;
        self.tail_len = 0;
        bytes
    }

    /// Reset to an empty preview (a new dictation begins).
    pub fn reset(&mut self)
        ensures
            final(self)@ == (0nat, 0nat),
    {
        self.stable_len = 0;
        self.tail_len = 0;
    }
}

impl Default for PreviewCursor {
    /// A fresh cursor, as [`PreviewCursor::new`].
    fn default() -> (c: PreviewCursor)
        ensures
            c@ == (0nat, 0nat),
    {
        PreviewCursor::new()
    }
}

proof fn lemma_strip_ends_clean(s: Seq<char>)
    ensures
        strip_trailing_eol(s).len() > 0 ==> strip_trailing_eol(s).last() != '\r'
            && strip_trailing_eol(s).last() != '\n',
    decreases s.len(),
{
    if s.len() > 0 && (s.last() == '\r' || s.last() == '\n') {
        lemma_strip_ends_clean(s.drop_last());
    }
}

proof fn lemma_encode_last(s: Seq<char>)
    requires
        s.len() > 0,
    ensures
        encode_utf8(s).len() > 0,
        encode_utf8(s).last() == encode_scalar(s.last() as u32).last(),
    decreases s.len(),
{
    let head = encode_scalar(s[0] as u32);
    assert(head.len() > 0);
    if s.len() == 1 {
        assert(encode_utf8(s.drop_first()) =~= Seq::<u8>::empty());
        assert(encode_utf8(s) =~= head);
    } else {
        lemma_encode_last(s.drop_first());
        assert(s.drop_first().last() == s.last());
    }
}

/// Injected text never ends in a carriage return or a newline byte, so an injected
/// transcript is never submitted: the wrapped program waits for the user's Enter.
pub proof fn lemma_injection_never_ends_in_eol(text: Seq<char>)
    ensures
        encode_utf8(strip_trailing_eol(text)).len() > 0 ==> encode_utf8(strip_trailing_eol(text)).last()
            != 10 && encode_utf8(strip_trailing_eol(text)).last() != 13,
{
    let s = strip_trailing_eol(text);
    lemma_strip_ends_clean(text);
    if s.len() > 0 {
        lemma_encode_last(s);
        let v = s.last() as u32;
        let c = s.last();
        assert(c != '\r' && c != '\n');
        assert(v != 10 && v != 13) by {
            vstd::utf8::char_u32_cast(c, v);
            vstd::utf8::char_u32_cast('\r', 13);
            vstd::utf8::char_u32_cast('\n', 10);
        }
        if v <= 0x7f {
            assert((v & 0x7f) as u8 != 10 && (v & 0x7f) as u8 != 13) by (bit_vector)
                requires
                    v <= 0x7f,
                    v != 10,
                    v != 13,
            ;
        } else {
            assert((0x80 | (v & 0x3f) as u8) >= 0x80) by (bit_vector);
        }
    } else {
        assert(encode_utf8(s) =~= Seq::<u8>::empty());
    }
}

} // verus!
