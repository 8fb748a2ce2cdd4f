//! The correction dictionary: a deterministic jargon spell-fixer. Matching is ASCII
//! case-insensitive and whole-word; replacements are inserted verbatim. Rules apply in
//! the order given, longest key first so that a phrase wins over its substrings.

use vstd::prelude::*;
use vstd::utf8::encode_utf8;
use crate::text::{chars_of, lower, lower_chars, lower_seq, push_chars, string_from_chars};

verus! {

broadcast use vstd::seq_lib::group_seq_properties;

/// Lexicographic order on bytes: `a` is no greater than `b`.
pub open spec fn bytes_le(a: Seq<u8>, b: Seq<u8>) -> bool
    decreases a.len(),
{
    if a.len() == 0 {
        true
    } else if b.len() == 0 {
        false
    } else if a[0] != b[0] {
        a[0] < b[0]
    } else {
        bytes_le(a.drop_first(), b.drop_first())
    }
}

/// Whether key `a` may precede key `b`: a longer UTF-8 encoding first, and among
/// keys of equal byte length the bytewise-smaller first.
pub open spec fn sorts_before(a: Seq<char>, b: Seq<char>) -> bool {
    let x = encode_utf8(a);
    let y = encode_utf8(b);
    x.len() > y.len() || (x.len() == y.len() && bytes_le(x, y))
}

/// A correction rule as the characters of its key and of its replacement.
pub open spec fn rule_view(p: (String, String)) -> (Seq<char>, Seq<char>) {
    (p.0@, p.1@)
}

/// Where `x` goes in `s`: before the first rule at or after `i` that must not precede it.
pub open spec fn insert_pos(s: Seq<(Seq<char>, Seq<char>)>, x: (Seq<char>, Seq<char>), i: int) -> int
    decreases s.len() - i,
{
    if i < 0 || i >= s.len() || !sorts_before(s[i].0, x.0) {
        i
    } else {
        insert_pos(s, x, i + 1)
    }
}

/// `s` with `x` inserted after every rule that may precede it.
pub open spec fn insert_sorted(s: Seq<(Seq<char>, Seq<char>)>, x: (Seq<char>, Seq<char>)) -> Seq<
    (Seq<char>, Seq<char>),
> {
    s.insert(insert_pos(s, x, 0), x)
}

/// The rules of `t` in apply order: each rule in turn inserted into the order built from
/// the rules before it.
pub open spec fn ordered(t: Seq<(Seq<char>, Seq<char>)>) -> Seq<(Seq<char>, Seq<char>)>
    decreases t.len(),
{
    if t.len() == 0 {
        Seq::empty()
    } else {
        insert_sorted(ordered(t.drop_last()), t.last())
    }
}

/// Whether key `a` may precede key `b`.
fn key_sorts_before(a: &String, b: &String) -> (r: bool)
    ensures
        r == sorts_before(a@, b@),
{
    let x = a.as_str().as_bytes();
    let y = b.as_str().as_bytes();
    if x.len() != y.len() {
        return x.len() > y.len();
    }
    let mut i: usize = 0;
    assert(x@.subrange(0, x@.len() as int) =~= x@);
    assert(y@.subrange(0, y@.len() as int) =~= y@);
    while i < x.len()
        invariant
            i <= x@.len(),
            x@.len() == y@.len(),
            x@ == encode_utf8(a@),
            y@ == encode_utf8(b@),
            bytes_le(x@, y@) == bytes_le(
                x@.subrange(i as int, x@.len() as int),
                y@.subrange(i as int, y@.len() as int),
            ),
        decreases x@.len() - i,
    {
        assert(x@.subrange(i as int, x@.len() as int).drop_first() =~= x@.subrange(
            i + 1,
            x@.len() as int,
        ));
        assert(y@.subrange(i as int, y@.len() as int).drop_first() =~= y@.subrange(
            i + 1,
            y@.len() as int,
        ));
        if x[i] != y[i] {
            return x[i] < y[i];
        }
        i += 1;
    }
    true
}

/// Whether no two rules of a table share a key: a correction table maps each key to
/// one replacement.
pub open spec fn keys_distinct(t: Seq<(Seq<char>, Seq<char>)>) -> bool {
    forall|i: int, j: int| 0 <= i < j < t.len() ==> t[i].0 != t[j].0
}

/// Flatten a correction table (each key once, as a map holds it) into its apply
/// order: longest key first, ties broken by the keys' bytes.
pub fn ordered_corrections(table: &[(String, String)]) -> (pairs: Vec<(String, String)>)
    requires
        keys_distinct(table@.map_values(|p: (String, String)| rule_view(p))),
    ensures
        pairs@.map_values(|p: (String, String)| rule_view(p)) == ordered(
            table@.map_values(|p: (String, String)| rule_view(p)),
        ),
{
    let ghost tv = table@.map_values(|p: (String, String)| rule_view(p));
    let mut out: Vec<(String, String)> = Vec::new();
    let mut i: usize = 0;
    while i < table.len()
        invariant
            i <= table@.len(),
            tv == table@.map_values(|p: (String, String)| rule_view(p)),
            out@.map_values(|p: (String, String)| rule_view(p)) == ordered(
                tv.subrange(0, i as int),
            ),
        decreases table@.len() - i,
    {
        let ghost ov = out@.map_values(|p: (String, String)| rule_view(p));
        let x = (table[i].0.clone(), table[i].1.clone());
        let ghost xv = rule_view(x);
        assert(xv == tv[i as int]);
        let mut k: usize = 0;
        while k < out.len() && key_sorts_before(&out[k].0, &x.0)
            invariant
                k <= out@.len(),
                ov == out@.map_values(|p: (String, String)| rule_view(p)),
                xv == rule_view(x),
                insert_pos(ov, xv, 0) == insert_pos(ov, xv, k as int),
            decreases out@.len() - k,
        {
            assert(ov[k as int] == rule_view(out@[k as int]));
            k += 1;
        }
        out.insert(k, x);
        assert(tv.subrange(0, i + 1).drop_last() =~= tv.subrange(0, i as int));
        assert(out@.map_values(|p: (String, String)| rule_view(p)) =~= ov.insert(k as int, xv));
        i += 1;
    }
    assert(tv.subrange(0, table@.len() as int) =~= tv);
    out
}

proof fn lemma_bytes_le_total(a: Seq<u8>, b: Seq<u8>)
    ensures
        bytes_le(a, b) || bytes_le(b, a),
    decreases a.len(),
{
    if a.len() > 0 && b.len() > 0 && a[0] == b[0] {
        lemma_bytes_le_total(a.drop_first(), b.drop_first());
    }
}

proof fn lemma_bytes_le_trans(a: Seq<u8>, b: Seq<u8>, c: Seq<u8>)
    requires
        bytes_le(a, b),
        bytes_le(b, c),
    ensures
        bytes_le(a, c),
    decreases a.len(),
{
    if a.len() > 0 && a[0] == b[0] && b[0] == c[0] {
        lemma_bytes_le_trans(a.drop_first(), b.drop_first(), c.drop_first());
    }
}

proof fn lemma_sorts_before_total(a: Seq<char>, b: Seq<char>)
    ensures
        sorts_before(a, b) || sorts_before(b, a),
{
    lemma_bytes_le_total(encode_utf8(a), encode_utf8(b));
}

proof fn lemma_sorts_before_trans(a: Seq<char>, b: Seq<char>, c: Seq<char>)
    requires
        sorts_before(a, b),
        sorts_before(b, c),
    ensures
        sorts_before(a, c),
{
    let (x, y, z) = (encode_utf8(a), encode_utf8(b), encode_utf8(c));
    if x.len() == y.len() && y.len() == z.len() {
        lemma_bytes_le_trans(x, y, z);
    }
}

/// Whether each rule of `s` may precede every later one.
pub open spec fn rules_sorted(s: Seq<(Seq<char>, Seq<char>)>) -> bool {
    forall|i: int, j: int| 0 <= i < j < s.len() ==> sorts_before(#[trigger] s[i].0, #[trigger] s[j].0)
}

proof fn lemma_insert_pos(s: Seq<(Seq<char>, Seq<char>)>, x: (Seq<char>, Seq<char>), i: int)
    requires
        0 <= i <= s.len(),
        forall|j: int| 0 <= j < i ==> sorts_before(#[trigger] s[j].0, x.0),
    ensures
        i <= insert_pos(s, x, i) <= s.len(),
        forall|j: int| 0 <= j < insert_pos(s, x, i) ==> sorts_before(#[trigger] s[j].0, x.0),
        insert_pos(s, x, i) < s.len() ==> !sorts_before(s[insert_pos(s, x, i)].0, x.0),
    decreases s.len() - i,
{
    if i < s.len() && sorts_before(s[i].0, x.0) {
        lemma_insert_pos(s, x, i + 1);
    }
}

proof fn lemma_insert_sorted(s: Seq<(Seq<char>, Seq<char>)>, x: (Seq<char>, Seq<char>))
    requires
        rules_sorted(s),
    ensures
        rules_sorted(insert_sorted(s, x)),
        insert_sorted(s, x).to_multiset() == s.to_multiset().insert(x),
{
    lemma_insert_pos(s, x, 0);
    let k = insert_pos(s, x, 0);
    let r = insert_sorted(s, x);
    assert forall|i: int, j: int| 0 <= i < j < r.len() implies sorts_before(
        #[trigger] r[i].0,
        #[trigger] r[j].0,
    ) by {
        if i == k {
            lemma_sorts_before_total(s[k].0, x.0);
            if j - 1 > k {
                lemma_sorts_before_trans(x.0, s[k].0, s[j - 1].0);
            }
        } else if i < k && j > k {
            assert(sorts_before(s[i].0, s[j - 1].0));
        }
    }
}

/// The apply order of a table holds exactly the table's rules, and each rule may
/// precede every later one: longest key first, ties broken by the keys' bytes.
pub proof fn lemma_ordered_is_sorted_permutation(t: Seq<(Seq<char>, Seq<char>)>)
    ensures
        rules_sorted(ordered(t)),
        ordered(t).to_multiset() == t.to_multiset(),
    decreases t.len(),
{
    if t.len() > 0 {
        lemma_ordered_is_sorted_permutation(t.drop_last());
        lemma_insert_sorted(ordered(t.drop_last()), t.last());
        assert(t.drop_last().push(t.last()) =~= t);
    }
}

/// Keys whose UTF-8 encodings differ in length or bytes never tie: at most one of two
/// distinct keys may precede the other.
pub proof fn lemma_distinct_keys_never_tie(a: Seq<char>, b: Seq<char>)
    requires
        a != b,
    ensures
        !(sorts_before(a, b) && sorts_before(b, a)),
{
    if sorts_before(a, b) && sorts_before(b, a) {
        lemma_bytes_le_antisym(encode_utf8(a), encode_utf8(b));
        vstd::utf8::encode_utf8_decode_utf8(a);
        vstd::utf8::encode_utf8_decode_utf8(b);
    }
}

proof fn lemma_bytes_le_antisym(a: Seq<u8>, b: Seq<u8>)
    requires
        bytes_le(a, b),
        bytes_le(b, a),
        a.len() == b.len(),
    ensures
        a == b,
    decreases a.len(),
{
    if a.len() > 0 {
        lemma_bytes_le_antisym(a.drop_first(), b.drop_first());
        assert(a =~= seq![a[0]] + a.drop_first());
        assert(b =~= seq![b[0]] + b.drop_first());
    }
}

/// An ASCII letter, digit or underscore: a character that continues a word.
pub open spec fn is_word_char(c: char) -> bool {
    ('a' <= c && c <= 'z') || ('A' <= c && c <= 'Z') || ('0' <= c && c <= '9') || c == '_'
}

/// Whether the lowercased needle `n` occurs in `t` at `p`, ignoring ASCII case.
pub open spec fn lowered_match(t: Seq<char>, n: Seq<char>, p: int) -> bool {
    0 <= p && p + n.len() <= t.len() && lower_seq(t.subrange(p, p + n.len())) == n
}

/// Whether `t[p..q]` stands alone as a word: no word character on either side.
pub open spec fn at_boundaries(t: Seq<char>, p: int, q: int) -> bool {
    (p == 0 || !is_word_char(t[p - 1])) && (q == t.len() || !is_word_char(t[q]))
}

/// A whole-word, case-insensitive occurrence of the lowercased needle `n` at `p`.
pub open spec fn word_match(t: Seq<char>, n: Seq<char>, p: int) -> bool {
    n.len() > 0 && lowered_match(t, n, p) && at_boundaries(t, p, p + n.len())
}

/// The text from `p` on with every whole-word occurrence of `n` replaced by `to`,
/// scanning left to right and resuming after each replacement.
pub open spec fn replace_from(t: Seq<char>, n: Seq<char>, to: Seq<char>, p: int) -> Seq<char>
    decreases t.len() - p,
{
    if p < 0 || p >= t.len() {
        Seq::empty()
    } else if word_match(t, n, p) {
        to + replace_from(t, n, to, p + n.len())
    } else {
        seq![t[p]] + replace_from(t, n, to, p + 1)
    }
}

/// `t` with whole-word, ASCII case-insensitive occurrences of `from` replaced by `to`;
/// an empty `from` leaves `t` unchanged.
pub open spec fn replace_word(t: Seq<char>, from: Seq<char>, to: Seq<char>) -> Seq<char> {
    if from.len() == 0 {
        t
    } else {
        replace_from(t, lower_seq(from), to, 0)
    }
}

/// `text` after each rule of `cs` in turn.
pub open spec fn corrected(text: Seq<char>, cs: Seq<(Seq<char>, Seq<char>)>) -> Seq<char>
    decreases cs.len(),
{
    if cs.len() == 0 {
        text
    } else {
        replace_word(corrected(text, cs.drop_last()), cs.last().0, cs.last().1)
    }
}

/// Whether the lowercased text `lt` holds the needle `n` at `p`.
fn matches_at(lt: &[char], n: &[char], p: usize) -> (b: bool)
    requires
        p <= lt@.len(),
    ensures
        b == (p + n@.len() <= lt@.len() && lt@.subrange(p as int, p + n@.len()) == n@),
{
    if n.len() > lt.len() - p {
        return false;
    }
    let mut k: usize = 0;
    while k < n.len()
        invariant
            k <= n@.len(),
            p + n@.len() <= lt@.len(),
            lt@.len() <= usize::MAX,
            forall|j: int| 0 <= j < k ==> lt@[p + j] == n@[j],
        decreases n@.len() - k,
    {
        assert(p + k < lt@.len());
        if lt[p + k] != n[k] {
            assert(lt@.subrange(p as int, p + n@.len())[k as int] != n@[k as int]);
            return false;
        }
        k += 1;
    }
    assert(lt@.subrange(p as int, p + n@.len()) =~= n@);
    true
}

/// Whether `c` continues a word.
fn word_char(c: char) -> (b: bool)
    ensures
        b == is_word_char(c),
{
    ('a' <= c && c <= 'z') || ('A' <= c && c <= 'Z') || ('0' <= c && c <= '9') || c == '_'
}

/// Replace whole-word, ASCII case-insensitive occurrences of `from` in `text` by `to`.
/// After an occurrence that is not a whole word the scan moves on by one character.
fn replace_word_ci(text: &[char], from: &[char], to: &[char]) -> (r: Vec<char>)
    ensures
        r@ == replace_word(text@, from@, to@),
{
    if from.len() == 0 {
        let mut same: Vec<char> = Vec::new();
        push_chars(&mut same, text);
        assert(same@ =~= text@);
        return same;
    }
    let n = lower_chars(from);
    let lt = lower_chars(text);
    let ghost t = text@;
    let mut out: Vec<char> = Vec::new();
    let mut p: usize = 0;
    assert(out@ + replace_from(t, n@, to@, 0) =~= replace_from(t, n@, to@, 0));
    while p < text.len()
        invariant
            t == text@,
            p <= t.len(),
            n@ == lower_seq(from@),
            n@.len() > 0,
            lt@ == lower_seq(t),
            out@ + replace_from(t, n@, to@, p as int) == replace_from(t, n@, to@, 0),
        decreases t.len() - p,
    {
        let ghost before = out@;
        let found = matches_at(&lt, &n, p);
        proof {
            if p + n@.len() <= t.len() {
                assert(lower_seq(t.subrange(p as int, p + n@.len())) =~= lt@.subrange(
                    p as int,
                    p + n@.len(),
                ));
            }
        }
        let whole = found && (p == 0 || !word_char(text[p - 1])) && (p + n.len() == text.len()
            || !word_char(text[p + n.len()]));
        if whole {
            assert(word_match(t, n@, p as int));
            push_chars(&mut out, to);
            assert(out@ + replace_from(t, n@, to@, p + n@.len()) =~= before + replace_from(
                t,
                n@,
                to@,
                p as int,
            ));
            p = p + n.len();
        } else {
            assert(!word_match(t, n@, p as int));
            assert(found == lowered_match(t, n@, p as int));
            out.push(text[p]);
            assert(out@ + replace_from(t, n@, to@, p + 1) =~= before + replace_from(
                t,
                n@,
                to@,
                p as int,
            ));
            p = p + 1;
        }
    }
    assert(out@ =~= replace_from(t, n@, to@, 0));
    out
}

/// Apply each `(from, to)` correction to `text`, in the given order.
pub fn apply_corrections(text: &str, corrections: &[(String, String)]) -> (out: String)
    ensures
        out@ == corrected(text@, corrections@.map_values(|p: (String, String)| rule_view(p))),
{
    let ghost cv = corrections@.map_values(|p: (String, String)| rule_view(p));
    let mut cur = chars_of(text);
    let mut i: usize = 0;
    while i < corrections.len()
        invariant
            i <= corrections@.len(),
            cv == corrections@.map_values(|p: (String, String)| rule_view(p)),
            cur@ == corrected(text@, cv.subrange(0, i as int)),
        decreases corrections@.len() - i,
    {
        let from = chars_of(corrections[i].0.as_str());
        let to = chars_of(corrections[i].1.as_str());
        cur = replace_word_ci(&cur, &from, &to);
        assert(cv.subrange(0, i + 1).drop_last() =~= cv.subrange(0, i as int));
        i += 1;
    }
    assert(cv.subrange(0, corrections@.len() as int) =~= cv);
    string_from_chars(&cur)
}

} // verus!
