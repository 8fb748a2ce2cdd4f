//! Character-level text model shared by the parsers and renderers: whitespace,
//! trimming, word splitting, ASCII case folding, decimal and radix numerals.

use vstd::prelude::*;
use vstd::string::*;

verus! {

/// Unicode `White_Space`, the set that `char::is_whitespace` tests.
pub open spec fn is_ws(c: char) -> bool {
    let u = c as u32;
    (0x9 <= u && u <= 0xd) || u == 0x20 || u == 0x85 || u == 0xa0 || u == 0x1680 || (0x2000 <= u
        && u <= 0x200a) || u == 0x2028 || u == 0x2029 || u == 0x202f || u == 0x205f || u == 0x3000
}

/// Whether `c` is Unicode whitespace.
pub fn is_whitespace(c: char) -> (b: bool)
    ensures
        b == is_ws(c),
{
    let u = c as u32;
    (0x9 <= u && u <= 0xd) || u == 0x20 || u == 0x85 || u == 0xa0 || u == 0x1680 || (0x2000 <= u
        && u <= 0x200a) || u == 0x2028 || u == 0x2029 || u == 0x202f || u == 0x205f || u == 0x3000
}

/// The characters of `s`, in order.
pub fn chars_of(s: &str) -> (v: Vec<char>)
    ensures
        v@ == s@,
{
    let n = s.unicode_len();
    let mut v: Vec<char> = Vec::new();
    let mut i: usize = 0;
    while i < n
        invariant
            i <= n,
            n == s@.len(),
            v@ == s@.subrange(0, i as int),
        decreases n - i,
    {
        v.push(s.get_char(i));
        i += 1;
    }
    assert(v@ =~= s@);
    v
}

/// Collect characters into an owned string (std's `FromIterator<&char>` for `String`).
#[verifier::external_body]
pub(crate) fn string_from_chars(v: &[char]) -> (s: String)
    ensures
        s@ == v@,
{
    v.iter().collect()
}

/// Whether `a` and `b` hold the same characters.
pub fn chars_eq(a: &[char], b: &[char]) -> (r: bool)
    ensures
        r == (a@ == b@),
{
    if a.len() != b.len() {
        return false;
    }
    let mut i: usize = 0;
    while i < a.len()
        invariant
            i <= a@.len(),
            a@.len() == b@.len(),
            forall|j: int| 0 <= j < i ==> a@[j] == b@[j],
        decreases a@.len() - i,
    {
        if a[i] != b[i] {
            return false;
        }
        i += 1;
    }
    assert(a@ =~= b@);
    true
}

/// Whether the characters `v` spell out `lit`.
pub fn chars_eq_str(v: &[char], lit: &str) -> (r: bool)
    ensures
        r == (v@ == lit@),
{
    let l = chars_of(lit);
    chars_eq(v, l.as_slice())
}

/// `s` with leading whitespace removed.
pub open spec fn trim_start(s: Seq<char>) -> Seq<char>
    decreases s.len(),
{
    if s.len() > 0 && is_ws(s[0]) {
        trim_start(s.drop_first())
    } else {
        s
    }
}

/// `s` with trailing whitespace removed.
pub open spec fn trim_end(s: Seq<char>) -> Seq<char>
    decreases s.len(),
{
    if s.len() > 0 && is_ws(s.last()) {
        trim_end(s.drop_last())
    } else {
        s
    }
}

/// `s` with leading and trailing whitespace removed (`str::trim`).
pub open spec fn trim(s: Seq<char>) -> Seq<char> {
    trim_end(trim_start(s))
}

/// The index of the first non-whitespace character of `s` at or after `from`.
pub fn skip_ws_from(s: &[char], from: usize) -> (i: usize)
    requires
        from <= s@.len(),
    ensures
        from <= i <= s@.len(),
        trim_start(s@.subrange(from as int, s@.len() as int)) == s@.subrange(i as int, s@.len() as int),
{
    let mut i = from;
    while i < s.len() && is_whitespace(s[i])
        invariant
            from <= i <= s@.len(),
            trim_start(s@.subrange(from as int, s@.len() as int)) == trim_start(
                s@.subrange(i as int, s@.len() as int),
            ),
        decreases s@.len() - i,
    {
        assert(s@.subrange(i as int, s@.len() as int).drop_first() =~= s@.subrange(
            i + 1,
            s@.len() as int,
        ));
        i += 1;
    }
    i
}

/// `s` with leading and trailing whitespace removed.
pub fn trim_chars(s: &[char]) -> (t: Vec<char>)
    ensures
        t@ == trim(s@),
{
    let i = skip_ws_from(s, 0);
    assert(s@.subrange(0, s@.len() as int) =~= s@);
    let mut j = s.len();
    while j > i && is_whitespace(s[j - 1])
        invariant
            i <= j <= s@.len(),
            trim(s@) == trim_end(s@.subrange(i as int, j as int)),
        decreases j,
    {
        assert(s@.subrange(i as int, j as int).drop_last() =~= s@.subrange(i as int, j - 1));
        j -= 1;
    }
    let mut t: Vec<char> = Vec::new();
    let mut k = i;
    while k < j
        invariant
            i <= k <= j <= s@.len(),
            t@ == s@.subrange(i as int, k as int),
        decreases j - k,
    {
        t.push(s[k]);
        k += 1;
    }
    t
}

/// One step of whitespace splitting: the words completed so far and the word in progress.
pub open spec fn split_ws_fold(s: Seq<char>) -> (Seq<Seq<char>>, Seq<char>)
    decreases s.len(),
{
    if s.len() == 0 {
        (Seq::empty(), Seq::empty())
    } else {
        let (done, cur) = split_ws_fold(s.drop_last());
        if is_ws(s.last()) {
            if cur.len() > 0 {
                (done.push(cur), Seq::empty())
            } else {
                (done, Seq::empty())
            }
        } else {
            (done, cur.push(s.last()))
        }
    }
}

/// The maximal runs of non-whitespace characters of `s`, in order (`str::split_whitespace`).
pub open spec fn words(s: Seq<char>) -> Seq<Seq<char>> {
    let (done, cur) = split_ws_fold(s);
    if cur.len() > 0 {
        done.push(cur)
    } else {
        done
    }
}

/// Split `s` into its whitespace-separated words.
pub fn split_words(s: &[char]) -> (ws: Vec<Vec<char>>)
    ensures
        ws@.len() == words(s@).len(),
        forall|i: int| 0 <= i < ws@.len() ==> #[trigger] ws@[i]@ == words(s@)[i],
{
    let mut done: Vec<Vec<char>> = Vec::new();
    let mut cur: Vec<char> = Vec::new();
    let mut i: usize = 0;
    while i < s.len()
        invariant
            i <= s@.len(),
            done@.len() == split_ws_fold(s@.subrange(0, i as int)).0.len(),
            forall|k: int|
                0 <= k < done@.len() ==> #[trigger] done@[k]@ == split_ws_fold(
                    s@.subrange(0, i as int),
                ).0[k],
            cur@ == split_ws_fold(s@.subrange(0, i as int)).1,
        decreases s@.len() - i,
    {
        assert(s@.subrange(0, i + 1).drop_last() =~= s@.subrange(0, i as int));
        let c = s[i];
        if is_whitespace(c) {
            if cur.len() > 0 {
                let w = cur;
                done.push(w);
                cur = Vec::new();
            }
        } else {
            cur.push(c);
        }
        i += 1;
    }
    assert(s@.subrange(0, s@.len() as int) =~= s@);
    if cur.len() > 0 {
        done.push(cur);
    }
    done
}

/// ASCII lowercase of one character; every other character is unchanged.
pub open spec fn lower(c: char) -> char {
    if 'A' <= c && c <= 'Z' {
        ((c as u32) + 32) as char
    } else {
        c
    }
}

/// ASCII lowercase of every character (`str::to_ascii_lowercase`).
pub open spec fn lower_seq(s: Seq<char>) -> Seq<char> {
    s.map_values(|c: char| lower(c))
}

/// ASCII lowercase of one character.
pub fn to_lower(c: char) -> (r: char)
    ensures
        r == lower(c),
{
    if 'A' <= c && c <= 'Z' {
        let u = (c as u32 + 32) as u8;
        u as char
    } else {
        c
    }
}

/// ASCII lowercase of every character.
pub fn lower_chars(s: &[char]) -> (t: Vec<char>)
    ensures
        t@ == lower_seq(s@),
{
    let mut t: Vec<char> = Vec::new();
    let mut i: usize = 0;
    while i < s.len()
        invariant
            i <= s@.len(),
            t@ == lower_seq(s@.subrange(0, i as int)),
        decreases s@.len() - i,
    {
        t.push(to_lower(s[i]));
        i += 1;
        assert(lower_seq(s@.subrange(0, i as int)) =~= lower_seq(s@.subrange(0, i - 1)).push(
            lower(s@[i - 1]),
        ));
    }
    assert(s@.subrange(0, s@.len() as int) =~= s@);
    t
}

/// Whether `p` is a prefix of `s`.
pub open spec fn has_prefix(s: Seq<char>, p: Seq<char>) -> bool {
    p.len() <= s.len() && s.subrange(0, p.len() as int) == p
}

/// Whether `s` begins with `p`.
pub fn starts_with(s: &[char], p: &[char]) -> (r: bool)
    ensures
        r == has_prefix(s@, p@),
{
    if p.len() > s.len() {
        return false;
    }
    let mut i: usize = 0;
    while i < p.len()
        invariant
            i <= p@.len() <= s@.len(),
            forall|j: int| 0 <= j < i ==> s@[j] == p@[j],
        decreases p@.len() - i,
    {
        if s[i] != p[i] {
            assert(s@.subrange(0, p@.len() as int)[i as int] != p@[i as int]);
            return false;
        }
        i += 1;
    }
    assert(s@.subrange(0, p@.len() as int) =~= p@);
    true
}

/// The characters `s[from..to]`.
pub fn slice_chars(s: &[char], from: usize, to: usize) -> (t: Vec<char>)
    requires
        from <= to <= s@.len(),
    ensures
        t@ == s@.subrange(from as int, to as int),
{
    let mut t: Vec<char> = Vec::new();
    let mut k = from;
    while k < to
        invariant
            from <= k <= to <= s@.len(),
            t@ == s@.subrange(from as int, k as int),
        decreases to - k,
    {
        t.push(s[k]);
        k += 1;
    }
    t
}

/// Append the characters of `lit` to `out`.
pub fn push_str(out: &mut Vec<char>, lit: &str)
    ensures
        final(out)@ == old(out)@ + lit@,
{
    let l = chars_of(lit);
    push_chars(out, &l);
}

/// Append `more` to `out`.
pub fn push_chars(out: &mut Vec<char>, more: &[char])
    ensures
        final(out)@ == old(out)@ + more@,
{
    let mut k: usize = 0;
    while k < more.len()
        invariant
            k <= more@.len(),
            out@ == old(out)@ + more@.subrange(0, k as int),
        decreases more@.len() - k,
    {
        out.push(more[k]);
        k += 1;
    }
    assert(more@.subrange(0, more@.len() as int) =~= more@);
}

/// The ASCII digit character for `d < 10`.
pub open spec fn digit_char(d: nat) -> char {
    ((d + 48) as u32) as char
}

/// The decimal numeral of `n`, without leading zeros.
pub open spec fn dec(n: nat) -> Seq<char>
    decreases n,
{
    if n < 10 {
        seq![digit_char(n)]
    } else {
        dec(n / 10).push(digit_char(n % 10))
    }
}

/// The ASCII digit character for `d`.
pub fn digit(d: u64) -> (c: char)
    requires
        d < 10,
    ensures
        c == digit_char(d as nat),
{
    let b = (d + 48) as u8;
    b as char
}

/// Append the decimal numeral of `n` to `out`.
pub fn push_dec(out: &mut Vec<char>, n: u64)
    ensures
        final(out)@ == old(out)@ + dec(n as nat),
    decreases n,
{
    if n >= 10 {
        push_dec(out, n / 10);
    }
    out.push(digit(n % 10));
    assert(old(out)@ + dec(n as nat) =~= final(out)@) by {
        if n >= 10 {
            assert(dec(n as nat) == dec((n / 10) as nat).push(digit_char((n % 10) as nat)));
        }
    }
}

/// The decimal numeral of `n` (`n.to_string()`).
pub fn dec_string(n: u64) -> (s: String)
    ensures
        s@ == dec(n as nat),
{
    let mut v: Vec<char> = Vec::new();
    push_dec(&mut v, n);
    assert(v@ =~= dec(n as nat));
    string_from_chars(&v)
}

/// The value of digit `c` in base `radix` (10 or 16), if it is one.
pub open spec fn digit_value(c: char, radix: nat) -> Option<nat> {
    let u = c as u32;
    if 48 <= u && u <= 57 {
        Some((u - 48) as nat)
    } else if radix == 16 && 97 <= u && u <= 102 {
        Some((u - 87) as nat)
    } else if radix == 16 && 65 <= u && u <= 70 {
        Some((u - 55) as nat)
    } else {
        None
    }
}

/// Whether every character of `s` is a base-`radix` digit.
pub open spec fn all_digits(s: Seq<char>, radix: nat) -> bool {
    forall|i: int| 0 <= i < s.len() ==> (#[trigger] digit_value(s[i], radix)) is Some
}

/// The value of the base-`radix` numeral `s` (whose characters are all digits).
pub open spec fn numeral_value(s: Seq<char>, radix: nat) -> nat
    decreases s.len(),
{
    if s.len() == 0 {
        0
    } else {
        numeral_value(s.drop_last(), radix) * radix + digit_value(s.last(), radix).unwrap()
    }
}

/// What Rust's unsigned `from_str_radix` yields: an optional leading `+`, then at
/// least one digit, with a value no larger than `max`.
pub open spec fn parse_uint(s: Seq<char>, radix: nat, max: nat) -> Option<nat> {
    let body = if s.len() > 0 && s[0] == '+' {
        s.drop_first()
    } else {
        s
    };
    if body.len() > 0 && all_digits(body, radix) && numeral_value(body, radix) <= max {
        Some(numeral_value(body, radix))
    } else {
        None
    }
}

proof fn lemma_numeral_prefix_le(s: Seq<char>, radix: nat, i: int)
    requires
        0 <= i <= s.len(),
        radix >= 1,
        all_digits(s, radix),
    ensures
        numeral_value(s.subrange(0, i), radix) <= numeral_value(s, radix),
    decreases s.len() - i,
{
    if i < s.len() {
        let t = s.drop_last();
        assert(all_digits(t, radix)) by {
            assert forall|k: int| 0 <= k < t.len() implies (#[trigger] digit_value(t[k], radix)) is Some by {
                assert(t[k] == s[k]);
            }
        }
        if i < s.len() {
            assert(s.subrange(0, i) =~= t.subrange(0, i));
            lemma_numeral_prefix_le(t, radix, i);
            let v = numeral_value(t, radix);
            assert(v * radix >= v) by (nonlinear_arith)
                requires radix >= 1;
        }
    } else {
        assert(s.subrange(0, i) =~= s);
    }
}

/// The digit value of `c` in base `radix`.
fn digit_of(c: char, radix: u64) -> (d: Option<u64>)
    requires
        radix == 10 || radix == 16,
    ensures
        d matches Some(v) ==> digit_value(c, radix as nat) == Some(v as nat),
        d is None ==> digit_value(c, radix as nat) is None,
{
    let u = c as u32;
    if 48 <= u && u <= 57 {
        Some((u - 48) as u64)
    } else if radix == 16 && 97 <= u && u <= 102 {
        Some((u - 87) as u64)
    } else if radix == 16 && 65 <= u && u <= 70 {
        Some((u - 55) as u64)
    } else {
        None
    }
}

/// Parse an unsigned base-`radix` numeral no larger than `max`, as Rust's
/// `from_str_radix` does for unsigned integers.
pub fn parse_uint_chars(s: &[char], radix: u64, max: u64) -> (r: Option<u64>)
    requires
        radix == 10 || radix == 16,
    ensures
        r matches Some(v) ==> parse_uint(s@, radix as nat, max as nat) == Some(v as nat),
        r is None ==> parse_uint(s@, radix as nat, max as nat) is None,
{
    let start: usize = if s.len() > 0 && s[0] == '+' { 1 } else { 0 };
    let ghost body = if s@.len() > 0 && s@[0] == '+' { s@.drop_first() } else { s@ };
    assert(body =~= s@.subrange(start as int, s@.len() as int));
    if start == s.len() {
        return None;
    }
    let mut val: u64 = 0;
    let mut i = start;
    while i < s.len()
        invariant
            start <= i <= s@.len(),
            radix == 10 || radix == 16,
            body == s@.subrange(start as int, s@.len() as int),
            body == (if s@.len() > 0 && s@[0] == '+' { s@.drop_first() } else { s@ }),
            all_digits(body.subrange(0, i - start), radix as nat),
            val as nat == numeral_value(body.subrange(0, i - start), radix as nat),
            val <= max,
        decreases s@.len() - i,
    {
        let ghost pre = body.subrange(0, i - start);
        let ghost next = body.subrange(0, i - start + 1);
        assert(next.drop_last() =~= pre);
        assert(next.last() == s@[i as int]);
        match digit_of(s[i], radix) {
            None => {
                assert(!all_digits(body, radix as nat)) by {
                    assert(body[i - start] == s@[i as int]);
                    assert(digit_value(body[i - start], radix as nat) is None);
                }
                return None;
            },
            Some(d) => {
                assert(all_digits(next, radix as nat)) by {
                    assert forall|k: int| 0 <= k < next.len() implies (#[trigger] digit_value(next[k], radix as nat)) is Some by {
                        if k < pre.len() {
                            assert(next[k] == pre[k]);
                        }
                    }
                }
                if d > max || val > (max - d) / radix {
                    assert(val * radix + d > max) by (nonlinear_arith)
                        requires
                            d > max || val > (max - d) as int / radix as int,
                            radix > 0,
                            val >= 0,
                    ;
                    assert(numeral_value(next, radix as nat) > max);
                    proof {
                        if all_digits(body, radix as nat) {
                            lemma_numeral_prefix_le(body, radix as nat, i - start + 1);
                            assert(numeral_value(body, radix as nat) > max);
                        }
                    }
                    return None;
                }
                assert(val * radix + d <= max) by (nonlinear_arith)
                    requires
                        val <= (max - d) as int / radix as int,
                        radix > 0,
                        d <= max,
                ;
                val = val * radix + d;
            },
        }
        i += 1;
    }
    assert(body.subrange(0, body.len() as int) =~= body);
    Some(val)
}

/// Whether `s` holds no whitespace.
pub open spec fn no_ws(s: Seq<char>) -> bool {
    forall|i: int| 0 <= i < s.len() ==> !is_ws(#[trigger] s[i])
}

/// Appending whitespace-free characters to a word boundary extends the word in progress.
pub proof fn lemma_fold_append_word(x: Seq<char>, w: Seq<char>)
    requires
        split_ws_fold(x).1.len() == 0,
        no_ws(w),
    ensures
        split_ws_fold(x + w) == (split_ws_fold(x).0, w),
    decreases w.len(),
{
    if w.len() == 0 {
        assert(x + w =~= x);
    } else {
        let v = w.drop_last();
        assert((x + w).drop_last() =~= x + v);
        assert(no_ws(v)) by {
            assert forall|i: int| 0 <= i < v.len() implies !is_ws(#[trigger] v[i]) by {
                assert(v[i] == w[i]);
            }
        }
        lemma_fold_append_word(x, v);
        assert(!is_ws(w[w.len() - 1]));
        assert((x + w).last() == w.last());
        assert(v.push(w.last()) =~= w);
    }
}

/// A single whitespace-free word splits into itself.
pub proof fn lemma_words_single(w: Seq<char>)
    requires
        w.len() > 0,
        no_ws(w),
    ensures
        words(w) == seq![w],
{
    lemma_fold_append_word(Seq::empty(), w);
    assert(Seq::<char>::empty() + w =~= w);
    assert(Seq::<Seq<char>>::empty().push(w) =~= seq![w]);
}

/// A space then a whitespace-free word appends that word to the split.
pub proof fn lemma_words_push_word(x: Seq<char>, w: Seq<char>)
    requires
        w.len() > 0,
        no_ws(w),
    ensures
        words(x + seq![' '] + w) == words(x).push(w),
{
    let xs = x.push(' ');
    assert(x + seq![' '] =~= xs);
    assert(xs.drop_last() =~= x);
    assert(is_ws(' '));
    assert(split_ws_fold(xs) == (words(x), Seq::<char>::empty()));
    lemma_fold_append_word(xs, w);
}

proof fn lemma_digit_char_value(d: nat)
    requires
        d < 10,
    ensures
        digit_char(d) as u32 == d + 48,
        digit_value(digit_char(d), 10) == Some(d),
        !is_ws(digit_char(d)),
        digit_char(d) != '+',
{
    assert(digit_char(d) as u32 == d + 48);
}

/// Decimal numerals are made of digits only.
pub proof fn lemma_dec_digits(n: nat)
    ensures
        dec(n).len() > 0,
        all_digits(dec(n), 10),
        no_ws(dec(n)),
        dec(n)[0] != '+',
        numeral_value(dec(n), 10) == n,
    decreases n,
{
    lemma_digit_char_value(n % 10);
    if n < 10 {
        assert(dec(n) =~= seq![digit_char(n)]);
        assert(seq![digit_char(n)].drop_last() =~= Seq::<char>::empty());
        assert(numeral_value(dec(n), 10) == numeral_value(Seq::<char>::empty(), 10) * 10 + n);
    } else {
        lemma_dec_digits(n / 10);
        let d = dec(n / 10);
        let e = dec(n);
        assert(e == d.push(digit_char(n % 10)));
        assert(e.drop_last() =~= d);
        assert(numeral_value(e, 10) == numeral_value(d, 10) * 10 + n % 10);
        assert forall|i: int| 0 <= i < e.len() implies (#[trigger] digit_value(e[i], 10)) is Some by {
            if i < d.len() {
                assert(e[i] == d[i]);
            }
        }
        assert forall|i: int| 0 <= i < e.len() implies !is_ws(#[trigger] e[i]) by {
            if i < d.len() {
                assert(e[i] == d[i]);
                assert(digit_value(d[i], 10) is Some);
            }
        }
    }
}

/// The decimal numeral of `n` parses back to `n` when `n <= max`.
pub proof fn lemma_dec_parses(n: nat, max: nat)
    requires
        n <= max,
    ensures
        parse_uint(dec(n), 10, max) == Some(n),
{
    lemma_dec_digits(n);
}

/// One step of splitting on a separator: the fields completed so far and the field in progress.
pub open spec fn split_fold(s: Seq<char>, sep: char) -> (Seq<Seq<char>>, Seq<char>)
    decreases s.len(),
{
    if s.len() == 0 {
        (Seq::empty(), Seq::empty())
    } else {
        let (done, cur) = split_fold(s.drop_last(), sep);
        if s.last() == sep {
            (done.push(cur), Seq::empty())
        } else {
            (done, cur.push(s.last()))
        }
    }
}

/// The fields of `s` between occurrences of `sep`, empty fields included (`str::split`).
pub open spec fn split_on(s: Seq<char>, sep: char) -> Seq<Seq<char>> {
    let (done, cur) = split_fold(s, sep);
    done.push(cur)
}

/// Appending a separator closes the field in progress.
pub proof fn lemma_split_fold_push_sep(a: Seq<char>, sep: char)
    ensures
        split_fold(a.push(sep), sep) == (split_fold(a, sep).0.push(split_fold(a, sep).1), Seq::<
            char,
        >::empty()),
{
    assert(a.push(sep).drop_last() =~= a);
}

/// Appending text free of the separator extends the field in progress.
pub proof fn lemma_split_fold_append_plain(a: Seq<char>, b: Seq<char>, sep: char)
    requires
        forall|k: int| 0 <= k < b.len() ==> b[k] != sep,
    ensures
        split_fold(a + b, sep) == (split_fold(a, sep).0, split_fold(a, sep).1 + b),
    decreases b.len(),
{
    if b.len() == 0 {
        assert(a + b =~= a);
        assert(split_fold(a, sep).1 + b =~= split_fold(a, sep).1);
    } else {
        lemma_split_fold_append_plain(a, b.drop_last(), sep);
        assert((a + b).drop_last() =~= a + b.drop_last());
        assert((a + b).last() == b.last());
        assert((split_fold(a, sep).1 + b.drop_last()).push(b.last()) =~= split_fold(a, sep).1 + b);
    }
}

/// A field free of the separator followed by the separator, appended where no field
/// is in progress, adds exactly that field.
pub proof fn lemma_split_fold_append_field(a: Seq<char>, x: Seq<char>, sep: char)
    requires
        split_fold(a, sep).1.len() == 0,
        forall|k: int| 0 <= k < x.len() ==> x[k] != sep,
    ensures
        split_fold(a + x.push(sep), sep) == (split_fold(a, sep).0.push(x), Seq::<char>::empty()),
{
    assert(a + x.push(sep) =~= (a + x).push(sep));
    lemma_split_fold_append_plain(a, x, sep);
    assert(split_fold(a, sep).1 + x =~= x);
    lemma_split_fold_push_sep(a + x, sep);
}

/// Split `s` on every `sep`.
pub fn split_chars(s: &[char], sep: char) -> (fs: Vec<Vec<char>>)
    ensures
        fs@.len() == split_on(s@, sep).len(),
        forall|i: int| 0 <= i < fs@.len() ==> #[trigger] fs@[i]@ == split_on(s@, sep)[i],
{
    let mut done: Vec<Vec<char>> = Vec::new();
    let mut cur: Vec<char> = Vec::new();
    let mut i: usize = 0;
    while i < s.len()
        invariant
            i <= s@.len(),
            done@.len() == split_fold(s@.subrange(0, i as int), sep).0.len(),
            forall|k: int|
                0 <= k < done@.len() ==> #[trigger] done@[k]@ == split_fold(
                    s@.subrange(0, i as int),
                    sep,
                ).0[k],
            cur@ == split_fold(s@.subrange(0, i as int), sep).1,
        decreases s@.len() - i,
    {
        assert(s@.subrange(0, i + 1).drop_last() =~= s@.subrange(0, i as int));
        let c = s[i];
        if c == sep {
            let w = cur;
            done.push(w);
            cur = Vec::new();
        } else {
            cur.push(c);
        }
        i += 1;
    }
    assert(s@.subrange(0, s@.len() as int) =~= s@);
    done.push(cur);
    done
}

/// `ws` joined with `sep` between consecutive items (`[T]::join`).
pub open spec fn join(ws: Seq<Seq<char>>, sep: Seq<char>) -> Seq<char>
    decreases ws.len(),
{
    if ws.len() == 0 {
        Seq::empty()
    } else if ws.len() == 1 {
        ws[0]
    } else {
        join(ws.drop_last(), sep) + sep + ws.last()
    }
}

/// Joining two lists one after the other: the two joins, with `sep` between them when
/// both are non-empty.
pub proof fn lemma_join_append(x: Seq<Seq<char>>, y: Seq<Seq<char>>, sep: Seq<char>)
    ensures
        join(x + y, sep) == if x.len() == 0 {
            join(y, sep)
        } else if y.len() == 0 {
            join(x, sep)
        } else {
            join(x, sep) + sep + join(y, sep)
        },
    decreases y.len(),
{
    if y.len() == 0 {
        assert(x + y =~= x);
    } else if x.len() == 0 {
        assert(x + y =~= y);
    } else {
        lemma_join_append(x, y.drop_last(), sep);
        assert((x + y).drop_last() =~= x + y.drop_last());
        assert((x + y).last() == y.last());
        if y.len() == 1 {
            assert(y.drop_last().len() == 0);
            assert(x + y.drop_last() =~= x);
            assert(join(y, sep) == y[0]);
        } else {
            assert(join(y, sep) == join(y.drop_last(), sep) + sep + y.last());
            assert(join(x, sep) + sep + join(y.drop_last(), sep) + sep + y.last() =~= join(x, sep)
                + sep + (join(y.drop_last(), sep) + sep + y.last()));
        }
    }
}

/// Every word is non-empty and holds no space.
pub open spec fn spaceless_words(ws: Seq<Seq<char>>) -> bool {
    &&& forall|i: int| 0 <= i < ws.len() ==> #[trigger] ws[i].len() > 0
    &&& forall|i: int, k: int| 0 <= i < ws.len() && 0 <= k < ws[i].len() ==> #[trigger] ws[i][k] != ' '
}

/// Space-joining is injective on lists of non-empty words without spaces: the joined
/// text determines the words.
pub proof fn lemma_join_injective(a: Seq<Seq<char>>, b: Seq<Seq<char>>)
    requires
        spaceless_words(a),
        spaceless_words(b),
        join(a, seq![' ']) == join(b, seq![' ']),
    ensures
        a == b,
    decreases a.len() + b.len(),
{
    let sp = seq![' '];
    let j = join(a, sp);
    let n = j.len() as int;
    if a.len() == 0 || b.len() == 0 {
        if a.len() > 0 {
            lemma_join_ends_with_last(a);
            assert(a.last().len() > 0);
        }
        if b.len() > 0 {
            lemma_join_ends_with_last(b);
            assert(b.last().len() > 0);
        }
        assert(a =~= b);
    } else {
        let la = a.last();
        let lb = b.last();
        lemma_join_ends_with_last(a);
        lemma_join_ends_with_last(b);
        assert(la.len() == lb.len()) by {
            if la.len() < lb.len() {
                let p = n - la.len() - 1;
                if a.len() >= 2 {
                    assert(j[p] == ' ');
                    assert(j.subrange(n - lb.len(), n)[p - (n - lb.len())] == j[p]);
                    assert(lb[p - (n - lb.len())] != ' ');
                }
            } else if lb.len() < la.len() {
                let p = n - lb.len() - 1;
                if b.len() >= 2 {
                    assert(j[p] == ' ');
                    assert(j.subrange(n - la.len(), n)[p - (n - la.len())] == j[p]);
                    assert(la[p - (n - la.len())] != ' ');
                }
            }
        }
        assert(la == lb);
        if a.len() == 1 || b.len() == 1 {
            assert(a.len() == 1 && b.len() == 1);
            assert(a =~= seq![la]);
            assert(b =~= seq![lb]);
        } else {
            let a2 = a.drop_last();
            let b2 = b.drop_last();
            assert(join(a2, sp) =~= j.subrange(0, n - la.len() - 1));
            assert(join(b2, sp) =~= j.subrange(0, n - lb.len() - 1));
            assert forall|i: int, k: int| 0 <= i < a2.len() && 0 <= k < a2[i].len() implies #[trigger] a2[i][k]
                != ' ' by {
                assert(a2[i] == a[i]);
            }
            assert forall|i: int, k: int| 0 <= i < b2.len() && 0 <= k < b2[i].len() implies #[trigger] b2[i][k]
                != ' ' by {
                assert(b2[i] == b[i]);
            }
            assert forall|i: int| 0 <= i < a2.len() implies #[trigger] a2[i].len() > 0 by {
                assert(a2[i] == a[i]);
            }
            assert forall|i: int| 0 <= i < b2.len() implies #[trigger] b2[i].len() > 0 by {
                assert(b2[i] == b[i]);
            }
            lemma_join_injective(a2, b2);
            assert(a =~= a2.push(la));
            assert(b =~= b2.push(lb));
        }
    }
}

/// A non-empty join ends with the last word, preceded by a space when there are more.
proof fn lemma_join_ends_with_last(a: Seq<Seq<char>>)
    requires
        a.len() > 0,
    ensures
        join(a, seq![' ']).len() >= a.last().len(),
        join(a, seq![' ']).subrange(
            join(a, seq![' ']).len() - a.last().len(),
            join(a, seq![' ']).len() as int,
        ) == a.last(),
        a.len() == 1 ==> join(a, seq![' ']) == a.last(),
        a.len() >= 2 ==> join(a, seq![' ']) == join(a.drop_last(), seq![' ']) + seq![' '] + a.last(),
        a.len() >= 2 ==> join(a, seq![' ']).len() == join(a.drop_last(), seq![' ']).len() + 1
            + a.last().len(),
        a.len() >= 2 ==> join(a, seq![' '])[join(a, seq![' ']).len() - a.last().len() - 1] == ' ',
{
    let sp = seq![' '];
    if a.len() == 1 {
        assert(join(a, sp) == a[0]);
        assert(a[0] == a.last());
        assert(join(a, sp).subrange(0, a.last().len() as int) =~= a.last());
    } else {
        let j = join(a, sp);
        let d = join(a.drop_last(), sp);
        assert(j == d + sp + a.last());
        assert(j.subrange(j.len() - a.last().len(), j.len() as int) =~= a.last());
        assert(j[d.len() as int] == ' ');
    }
}

/// Append `ws` joined with `sep` to `out`.
pub fn push_joined(out: &mut Vec<char>, ws: &[Vec<char>], sep: &str)
    ensures
        final(out)@ == old(out)@ + join(ws@.map_values(|w: Vec<char>| w@), sep@),
{
    let ghost wv = ws@.map_values(|w: Vec<char>| w@);
    let sepv = chars_of(sep);
    let mut i: usize = 0;
    while i < ws.len()
        invariant
            i <= ws@.len(),
            wv == ws@.map_values(|w: Vec<char>| w@),
            sepv@ == sep@,
            out@ == old(out)@ + join(wv.subrange(0, i as int), sep@),
        decreases ws@.len() - i,
    {
        let ghost before = out@;
        if i > 0 {
            push_chars(out, &sepv);
        }
        push_chars(out, &ws[i]);
        proof {
            let pre = wv.subrange(0, i as int);
            let nxt = wv.subrange(0, i + 1);
            assert(nxt.drop_last() =~= pre);
            assert(nxt.last() == ws@[i as int]@);
            if i == 0 {
                assert(pre.len() == 0);
                assert(join(pre, sep@) =~= Seq::<char>::empty());
                assert(out@ =~= old(out)@ + join(nxt, sep@));
            } else {
                assert(out@ =~= old(out)@ + join(nxt, sep@));
            }
        }
        i += 1;
    }
    assert(wv.subrange(0, ws@.len() as int) =~= wv);
}

/// Whether `needle` occurs in `hay` as a contiguous run.
pub open spec fn has_infix(hay: Seq<char>, needle: Seq<char>) -> bool {
    exists|i: int|
        0 <= i && i + needle.len() <= hay.len() && #[trigger] hay.subrange(i, i + needle.len())
            == needle
}

/// Whether `hay` holds `needle` at `p`.
fn holds_at(hay: &[char], needle: &[char], p: usize) -> (b: bool)
    requires
        p + needle@.len() <= hay@.len(),
    ensures
        b == (hay@.subrange(p as int, p + needle@.len()) == needle@),
{
    let hl = hay.len();
    let mut k: usize = 0;
    while k < needle.len()
        invariant
            k <= needle@.len(),
            p + needle@.len() <= hay@.len(),
            hl == hay@.len(),
            forall|j: int| 0 <= j < k ==> hay@[p + j] == needle@[j],
        decreases needle@.len() - k,
    {
        if hay[p + k] != needle[k] {
            assert(hay@.subrange(p as int, p + needle@.len())[k as int] != needle@[k as int]);
            return false;
        }
        k += 1;
    }
    assert(hay@.subrange(p as int, p + needle@.len()) =~= needle@);
    true
}

/// Whether `needle` occurs in `hay` (`str::contains` with a string pattern).
pub fn contains_chars(hay: &[char], needle: &[char]) -> (b: bool)
    ensures
        b == has_infix(hay@, needle@),
{
    if needle.len() > hay.len() {
        return false;
    }
    let last = hay.len() - needle.len();
    let mut p: usize = 0;
    while p < last
        invariant
            last + needle@.len() == hay@.len(),
            p <= last,
            forall|i: int|
                0 <= i < p ==> #[trigger] hay@.subrange(i, i + needle@.len()) != needle@,
        decreases last - p,
    {
        if holds_at(hay, needle, p) {
            return true;
        }
        p += 1;
    }
    holds_at(hay, needle, last)
}

} // verus!
