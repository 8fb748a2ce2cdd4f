//! Cache retention and naming. The WAV and transcript caches are count-capped: on each
//! new entry the oldest beyond the cap are pruned. Entries are named by a zero-padded
//! UTC timestamp, so a lexical sort is chronological.

use vstd::prelude::*;
use vstd::seq_lib::lemma_concat_associative;
use crate::text::{chars_of, dec, digit_char, push_chars, push_dec, push_str, string_from_chars};

verus! {

/// Given cache entries sorted oldest-first and a keep cap, the oldest entries to prune:
/// all but the newest `keep`.
pub fn stale_entries<T>(sorted_oldest_first: &[T], keep: usize) -> (stale: &[T])
    ensures
        stale@ == sorted_oldest_first@.subrange(
            0,
            if sorted_oldest_first@.len() > keep {
                sorted_oldest_first@.len() - keep
            } else {
                0
            },
        ),
{
    let remove = if sorted_oldest_first.len() > keep {
        sorted_oldest_first.len() - keep
    } else {
        0
    };
    vstd::slice::slice_subrange(sorted_oldest_first, 0, remove)
}

/// `k` zero characters.
pub open spec fn zeros(k: nat) -> Seq<char> {
    Seq::new(k, |i: int| '0')
}

/// The decimal numeral of `n`, left-padded with zeros to at least `width` characters.
pub open spec fn padded(n: nat, width: nat) -> Seq<char> {
    if dec(n).len() < width {
        zeros((width - dec(n).len()) as nat) + dec(n)
    } else {
        dec(n)
    }
}

/// A year as `{:04}` renders it: four zero-padded digits, a negative year as `-` and
/// three padded digits (the sign counts toward the width).
pub open spec fn year_field(year: int) -> Seq<char> {
    if year >= 0 {
        padded(year as nat, 4)
    } else {
        seq!['-'] + padded((-year) as nat, 3)
    }
}

/// The cache filename for a UTC timestamp and extension, such as
/// `2026-06-20T08-15-30.123Z.wav`; colons are avoided.
pub open spec fn iso_name(
    year: int,
    month: nat,
    day: nat,
    hour: nat,
    minute: nat,
    second: nat,
    millis: nat,
    ext: Seq<char>,
) -> Seq<char> {
    year_field(year) + "-"@ + padded(month, 2) + "-"@ + padded(day, 2) + "T"@ + padded(hour, 2)
        + "-"@ + padded(minute, 2) + "-"@ + padded(second, 2) + "."@ + padded(millis, 3) + "Z."@
        + ext
}

/// Append `n` zero-padded to at least `width` digits.
fn push_padded(out: &mut Vec<char>, n: u64, width: usize)
    ensures
        final(out)@ == old(out)@ + padded(n as nat, width as nat),
{
    let mut digits: Vec<char> = Vec::new();
    push_dec(&mut digits, n);
    assert(digits@ =~= dec(n as nat));
    let mut k: usize = digits.len();
    while k < width
        invariant
            digits@ == dec(n as nat),
            digits@.len() <= k,
            k <= width || k == digits@.len(),
            out@ == old(out)@ + zeros((k - digits@.len()) as nat),
        decreases width - k,
    {
        out.push('0');
        k += 1;
        assert(out@ =~= old(out)@ + zeros((k - digits@.len()) as nat));
    }
    push_chars(out, &digits);
    if digits.len() < width {
        assert(k == width);
        assert(out@ =~= old(out)@ + padded(n as nat, width as nat));
    } else {
        assert(zeros(0) =~= Seq::<char>::empty());
        assert(out@ =~= old(out)@ + padded(n as nat, width as nat));
    }
}

/// Build a cache filename from a UTC timestamp broken into its parts and an extension.
pub fn iso_filename(
    year: i32,
    month: u32,
    day: u32,
    hour: u32,
    minute: u32,
    second: u32,
    millis: u32,
    ext: &str,
) -> (name: String)
    ensures
        name@ == iso_name(
            year as int,
            month as nat,
            day as nat,
            hour as nat,
            minute as nat,
            second as nat,
            millis as nat,
            ext@,
        ),
{
    let mut v: Vec<char> = Vec::new();
    if year >= 0 {
        push_padded(&mut v, year as u64, 4);
    } else {
        v.push('-');
        let magnitude: u64 = (0i64 - year as i64) as u64;
        push_padded(&mut v, magnitude, 3);
    }
    assert(v@ =~= year_field(year as int));
    push_str(&mut v, "-");
    push_padded(&mut v, month as u64, 2);
    push_str(&mut v, "-");
    push_padded(&mut v, day as u64, 2);
    push_str(&mut v, "T");
    push_padded(&mut v, hour as u64, 2);
    push_str(&mut v, "-");
    push_padded(&mut v, minute as u64, 2);
    push_str(&mut v, "-");
    push_padded(&mut v, second as u64, 2);
    push_str(&mut v, ".");
    push_padded(&mut v, millis as u64, 3);
    push_str(&mut v, "Z.");
    push_str(&mut v, ext);
    assert(v@ =~= iso_name(
        year as int,
        month as nat,
        day as nat,
        hour as nat,
        minute as nat,
        second as nat,
        millis as nat,
        ext@,
    ));
    string_from_chars(&v)
}

/// `10^k`.
pub open spec fn pow10(k: nat) -> nat
    decreases k,
{
    if k == 0 {
        1
    } else {
        10 * pow10((k - 1) as nat)
    }
}

/// The last `w` decimal digits of `n`, most significant first.
pub open spec fn fixed_digits(n: nat, w: nat) -> Seq<char>
    decreases w,
{
    if w == 0 {
        Seq::empty()
    } else {
        fixed_digits(n / 10, (w - 1) as nat).push(digit_char(n % 10))
    }
}

/// Lexicographic order on characters by code point: `a` sorts strictly before `b`.
pub open spec fn lex_lt(a: Seq<char>, b: Seq<char>) -> bool
    decreases a.len(),
{
    if b.len() == 0 {
        false
    } else if a.len() == 0 {
        true
    } else if a[0] != b[0] {
        (a[0] as u32) < (b[0] as u32)
    } else {
        lex_lt(a.drop_first(), b.drop_first())
    }
}

proof fn lemma_lex_irreflexive(a: Seq<char>)
    ensures
        !lex_lt(a, a),
    decreases a.len(),
{
    if a.len() > 0 {
        lemma_lex_irreflexive(a.drop_first());
    }
}

proof fn lemma_lex_concat(a1: Seq<char>, b1: Seq<char>, a2: Seq<char>, b2: Seq<char>)
    requires
        a1.len() == a2.len(),
    ensures
        lex_lt(a1 + b1, a2 + b2) == (lex_lt(a1, a2) || (a1 == a2 && lex_lt(b1, b2))),
    decreases a1.len(),
{
    if a1.len() == 0 {
        assert(a1 + b1 =~= b1);
        assert(a2 + b2 =~= b2);
        assert(a1 =~= a2);
        lemma_lex_irreflexive(a1);
    } else {
        assert((a1 + b1).drop_first() =~= a1.drop_first() + b1);
        assert((a2 + b2).drop_first() =~= a2.drop_first() + b2);
        lemma_lex_concat(a1.drop_first(), b1, a2.drop_first(), b2);
        if a1[0] == a2[0] {
            if a1.drop_first() == a2.drop_first() {
                assert forall|i: int| 0 <= i < a1.len() implies a1[i] == a2[i] by {
                    if i > 0 {
                        assert(a1[i] == a1.drop_first()[i - 1]);
                        assert(a2[i] == a2.drop_first()[i - 1]);
                    }
                }
                assert(a1 =~= a2);
            } else {
                assert(a1 != a2);
            }
        } else {
            assert(a1 != a2);
        }
    }
}

proof fn lemma_digit_code(d: nat)
    requires
        d < 10,
    ensures
        digit_char(d) as u32 == d + 48,
{
    vstd::utf8::char_u32_cast(digit_char(d), (d + 48) as u32);
    assert(((d + 48) as u32) as char == digit_char(d));
    vstd::utf8::char_is_scalar(digit_char(d));
}

proof fn lemma_fixed_len(n: nat, w: nat)
    ensures
        fixed_digits(n, w).len() == w,
    decreases w,
{
    if w > 0 {
        lemma_fixed_len(n / 10, (w - 1) as nat);
    }
}

proof fn lemma_fixed_order(n1: nat, n2: nat, w: nat)
    requires
        n1 < pow10(w),
        n2 < pow10(w),
    ensures
        lex_lt(fixed_digits(n1, w), fixed_digits(n2, w)) == (n1 < n2),
        (fixed_digits(n1, w) == fixed_digits(n2, w)) == (n1 == n2),
    decreases w,
{
    if w == 0 {
        assert(n1 == 0 && n2 == 0);
        lemma_lex_irreflexive(fixed_digits(n1, w));
    } else {
        let k = (w - 1) as nat;
        assert(n1 / 10 < pow10(k) && n2 / 10 < pow10(k)) by (nonlinear_arith)
            requires
                n1 < pow10(w),
                n2 < pow10(w),
                pow10(w) == 10 * pow10(k),
        ;
        lemma_fixed_order(n1 / 10, n2 / 10, k);
        lemma_fixed_len(n1 / 10, k);
        lemma_fixed_len(n2 / 10, k);
        let (a1, a2) = (fixed_digits(n1 / 10, k), fixed_digits(n2 / 10, k));
        let (d1, d2) = (digit_char(n1 % 10), digit_char(n2 % 10));
        assert(fixed_digits(n1, w) =~= a1 + seq![d1]);
        assert(fixed_digits(n2, w) =~= a2 + seq![d2]);
        lemma_lex_concat(a1, seq![d1], a2, seq![d2]);
        lemma_digit_code(n1 % 10);
        lemma_digit_code(n2 % 10);
        assert(seq![d1].drop_first() =~= Seq::<char>::empty());
        assert(seq![d2].drop_first() =~= Seq::<char>::empty());
        assert(lex_lt(seq![d1], seq![d2]) == (n1 % 10 < n2 % 10)) by {
            reveal_with_fuel(lex_lt, 2);
        }
        assert((n1 < n2) == (n1 / 10 < n2 / 10 || (n1 / 10 == n2 / 10 && n1 % 10 < n2 % 10)));
        if fixed_digits(n1, w) == fixed_digits(n2, w) {
            assert(fixed_digits(n1, w)[k as int] == d1);
            assert(fixed_digits(n2, w)[k as int] == d2);
            assert(a1 =~= fixed_digits(n1, w).subrange(0, k as int));
            assert(a2 =~= fixed_digits(n2, w).subrange(0, k as int));
        }
        if n1 == n2 {
        } else if fixed_digits(n1, w) == fixed_digits(n2, w) {
            assert(n1 / 10 == n2 / 10);
            assert(d1 == d2);
            assert(n1 % 10 == n2 % 10);
        }
    }
}

proof fn lemma_fixed_leading_zero(n: nat, w: nat)
    requires
        n < pow10(w),
    ensures
        fixed_digits(n, w + 1) == seq!['0'] + fixed_digits(n, w),
    decreases w,
{
    if w == 0 {
        assert(n == 0);
        assert(digit_char(0) == '0');
        assert(fixed_digits(n, 1) =~= seq!['0']);
    } else {
        let k = (w - 1) as nat;
        assert(n / 10 < pow10(k)) by (nonlinear_arith)
            requires
                n < pow10(w),
                pow10(w) == 10 * pow10(k),
        ;
        lemma_fixed_leading_zero(n / 10, k);
        assert(fixed_digits(n, w + 1) =~= seq!['0'] + fixed_digits(n, w));
    }
}

proof fn lemma_dec_is_fixed(n: nat)
    ensures
        dec(n) == fixed_digits(n, dec(n).len()),
        n < pow10(dec(n).len()),
        dec(n).len() >= 1,
    decreases n,
{
    if n < 10 {
        reveal_with_fuel(fixed_digits, 2);
        reveal_with_fuel(pow10, 2);
        assert(fixed_digits(n, 1) =~= seq![digit_char(n)]);
        assert(pow10(1) == 10);
    } else {
        lemma_dec_is_fixed(n / 10);
        let l = dec(n / 10).len();
        assert(dec(n).len() == l + 1);
        assert(n % 10 == n % 10);
        assert(fixed_digits(n, l + 1) == fixed_digits(n / 10, l).push(digit_char(n % 10)));
        assert(pow10(l + 1) == 10 * pow10(l));
        assert(n < pow10(l + 1)) by (nonlinear_arith)
            requires
                n / 10 < pow10(l),
                pow10(l + 1) == 10 * pow10(l),
        ;
    }
}

proof fn lemma_dec_len_bound(n: nat, w: nat)
    requires
        w >= 1,
        n < pow10(w),
    ensures
        dec(n).len() <= w,
    decreases n,
{
    if n >= 10 {
        let k = (w - 1) as nat;
        if w == 1 {
            assert(pow10(1) == 10);
        }
        assert(w >= 2);
        assert(n / 10 < pow10(k)) by (nonlinear_arith)
            requires
                n < pow10(w),
                pow10(w) == 10 * pow10(k),
        ;
        lemma_dec_len_bound(n / 10, k);
    }
}

proof fn lemma_padded_is_fixed(n: nat, w: nat)
    requires
        w >= 1,
        n < pow10(w),
    ensures
        padded(n, w) == fixed_digits(n, w),
    decreases w,
{
    lemma_dec_is_fixed(n);
    lemma_dec_len_bound(n, w);
    let l = dec(n).len();
    if l < w {
        let k = (w - 1) as nat;
        assert(n < pow10(k)) by {
            lemma_pow10_monotone(l, k);
        }
        if k >= 1 {
            lemma_padded_is_fixed(n, k);
        }
        lemma_fixed_leading_zero(n, k);
        if l < k {
            assert(padded(n, k) == zeros((k - l) as nat) + dec(n));
            assert(zeros((w - l) as nat) =~= seq!['0'] + zeros((k - l) as nat));
            assert(padded(n, w) =~= seq!['0'] + padded(n, k));
        } else {
            assert(l == k);
            assert(zeros((w - l) as nat) =~= seq!['0']);
            assert(padded(n, w) =~= seq!['0'] + dec(n));
        }
    }
}

proof fn lemma_pow10_monotone(a: nat, b: nat)
    requires
        a <= b,
    ensures
        pow10(a) <= pow10(b),
    decreases b,
{
    if a < b {
        lemma_pow10_monotone(a, (b - 1) as nat);
    }
}

/// Fields that fit their zero-padded widths: a year of four digits, two-digit
/// month, day, hour, minute and second, three-digit milliseconds.
pub open spec fn fits_widths(t: (int, nat, nat, nat, nat, nat, nat)) -> bool {
    0 <= t.0 <= 9999 && t.1 <= 99 && t.2 <= 99 && t.3 <= 99 && t.4 <= 99 && t.5 <= 99 && t.6
        <= 999
}

/// Chronological order on timestamps given as their fields, most significant first.
pub open spec fn earlier(
    a: (int, nat, nat, nat, nat, nat, nat),
    b: (int, nat, nat, nat, nat, nat, nat),
) -> bool {
    a.0 < b.0 || (a.0 == b.0 && (a.1 < b.1 || (a.1 == b.1 && (a.2 < b.2 || (a.2 == b.2 && (a.3
        < b.3 || (a.3 == b.3 && (a.4 < b.4 || (a.4 == b.4 && (a.5 < b.5 || (a.5 == b.5 && a.6
        < b.6)))))))))))
}

/// The cache name of a timestamp given as its fields.
pub open spec fn iso_name_of(t: (int, nat, nat, nat, nat, nat, nat), ext: Seq<char>) -> Seq<char> {
    iso_name(t.0, t.1, t.2, t.3, t.4, t.5, t.6, ext)
}

proof fn lemma_field_step(x1: nat, x2: nat, w: nat, sep: Seq<char>, r1: Seq<char>, r2: Seq<char>)
    requires
        w >= 1,
        x1 < pow10(w),
        x2 < pow10(w),
    ensures
        lex_lt(padded(x1, w) + (sep + r1), padded(x2, w) + (sep + r2)) == (x1 < x2 || (x1 == x2
            && lex_lt(r1, r2))),
        (padded(x1, w) + (sep + r1) == padded(x2, w) + (sep + r2)) == (x1 == x2 && r1 == r2),
{
    lemma_padded_is_fixed(x1, w);
    lemma_padded_is_fixed(x2, w);
    lemma_fixed_len(x1, w);
    lemma_fixed_len(x2, w);
    lemma_fixed_order(x1, x2, w);
    let (p1, p2) = (padded(x1, w), padded(x2, w));
    lemma_lex_concat(p1, sep + r1, p2, sep + r2);
    lemma_lex_concat(sep, r1, sep, r2);
    lemma_lex_irreflexive(sep);
    if p1 + (sep + r1) == p2 + (sep + r2) {
        assert((p1 + (sep + r1)).subrange(0, w as int) =~= p1);
        assert((p2 + (sep + r2)).subrange(0, w as int) =~= p2);
        assert((p1 + (sep + r1)).subrange((w + sep.len()) as int, (p1 + (sep + r1)).len() as int)
            =~= r1);
        assert((p2 + (sep + r2)).subrange((w + sep.len()) as int, (p2 + (sep + r2)).len() as int)
            =~= r2);
    }
}

/// The cache name from the milliseconds on.
pub open spec fn name_from_millis(t: (int, nat, nat, nat, nat, nat, nat), ext: Seq<char>) -> Seq<char> {
    padded(t.6, 3) + ("Z."@ + ext)
}

/// The cache name from the seconds on.
pub open spec fn name_from_second(t: (int, nat, nat, nat, nat, nat, nat), ext: Seq<char>) -> Seq<char> {
    padded(t.5, 2) + ("."@ + name_from_millis(t, ext))
}

/// The cache name from the minutes on.
pub open spec fn name_from_minute(t: (int, nat, nat, nat, nat, nat, nat), ext: Seq<char>) -> Seq<char> {
    padded(t.4, 2) + ("-"@ + name_from_second(t, ext))
}

/// The cache name from the hours on.
pub open spec fn name_from_hour(t: (int, nat, nat, nat, nat, nat, nat), ext: Seq<char>) -> Seq<char> {
    padded(t.3, 2) + ("-"@ + name_from_minute(t, ext))
}

/// The cache name from the day on.
pub open spec fn name_from_day(t: (int, nat, nat, nat, nat, nat, nat), ext: Seq<char>) -> Seq<char> {
    padded(t.2, 2) + ("T"@ + name_from_hour(t, ext))
}

/// The cache name from the month on.
pub open spec fn name_from_month(t: (int, nat, nat, nat, nat, nat, nat), ext: Seq<char>) -> Seq<char> {
    padded(t.1, 2) + ("-"@ + name_from_day(t, ext))
}

proof fn lemma_iso_shape(t: (int, nat, nat, nat, nat, nat, nat), ext: Seq<char>)
    requires
        t.0 >= 0,
    ensures
        iso_name_of(t, ext) == padded(t.0 as nat, 4) + ("-"@ + name_from_month(t, ext)),
{
    let y = year_field(t.0);
    assert(y == padded(t.0 as nat, 4));
    let x1 = y + "-"@;
    let x2 = x1 + padded(t.1, 2);
    let x3 = x2 + "-"@;
    let x4 = x3 + padded(t.2, 2);
    let x5 = x4 + "T"@;
    let x6 = x5 + padded(t.3, 2);
    let x7 = x6 + "-"@;
    let x8 = x7 + padded(t.4, 2);
    let x9 = x8 + "-"@;
    let x10 = x9 + padded(t.5, 2);
    let x11 = x10 + "."@;
    let x12 = x11 + padded(t.6, 3);
    assert(iso_name_of(t, ext) == x12 + "Z."@ + ext);
    lemma_concat_associative(x12, "Z."@, ext);
    lemma_concat_associative(x11, padded(t.6, 3), "Z."@ + ext);
    lemma_concat_associative(x10, "."@, name_from_millis(t, ext));
    lemma_concat_associative(x9, padded(t.5, 2), "."@ + name_from_millis(t, ext));
    lemma_concat_associative(x8, "-"@, name_from_second(t, ext));
    lemma_concat_associative(x7, padded(t.4, 2), "-"@ + name_from_second(t, ext));
    lemma_concat_associative(x6, "-"@, name_from_minute(t, ext));
    lemma_concat_associative(x5, padded(t.3, 2), "-"@ + name_from_minute(t, ext));
    lemma_concat_associative(x4, "T"@, name_from_hour(t, ext));
    lemma_concat_associative(x3, padded(t.2, 2), "T"@ + name_from_hour(t, ext));
    lemma_concat_associative(x2, "-"@, name_from_day(t, ext));
    lemma_concat_associative(x1, padded(t.1, 2), "-"@ + name_from_day(t, ext));
    lemma_concat_associative(y, "-"@, name_from_month(t, ext));
}

/// Cache names sort lexically in chronological order: for timestamps whose fields
/// fit their padded widths and a shared extension, one name sorts before the other
/// exactly when its timestamp is earlier.
pub proof fn lemma_iso_names_sort_chronologically(
    a: (int, nat, nat, nat, nat, nat, nat),
    b: (int, nat, nat, nat, nat, nat, nat),
    ext: Seq<char>,
)
    requires
        fits_widths(a),
        fits_widths(b),
    ensures
        lex_lt(iso_name_of(a, ext), iso_name_of(b, ext)) == earlier(a, b),
{
    assert(pow10(2) == 100 && pow10(3) == 1000 && pow10(4) == 10000) by {
        reveal_with_fuel(pow10, 5);
    }
    lemma_lex_irreflexive(ext);
    lemma_field_step(a.6, b.6, 3, "Z."@, ext, ext);
    lemma_field_step(a.5, b.5, 2, "."@, name_from_millis(a, ext), name_from_millis(b, ext));
    lemma_field_step(a.4, b.4, 2, "-"@, name_from_second(a, ext), name_from_second(b, ext));
    lemma_field_step(a.3, b.3, 2, "-"@, name_from_minute(a, ext), name_from_minute(b, ext));
    lemma_field_step(a.2, b.2, 2, "T"@, name_from_hour(a, ext), name_from_hour(b, ext));
    lemma_field_step(a.1, b.1, 2, "-"@, name_from_day(a, ext), name_from_day(b, ext));
    lemma_field_step(
        a.0 as nat,
        b.0 as nat,
        4,
        "-"@,
        name_from_month(a, ext),
        name_from_month(b, ext),
    );
    lemma_iso_shape(a, ext);
    lemma_iso_shape(b, ext);
}

} // verus!
