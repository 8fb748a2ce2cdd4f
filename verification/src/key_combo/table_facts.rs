//! Facts about the named-key table: every name is a non-empty run of ASCII letters and
//! digits, no two names are equal ignoring case, and none names a modifier.

use vstd::prelude::*;
use crate::text::{is_ws, lower_seq, trim, trim_end, trim_start};
use super::{eq_ci, first_name_match, key_count, key_entry, modifier_index};

verus! {

/// An ASCII letter or digit.
pub open spec fn alnum(c: char) -> bool {
    ('a' <= c && c <= 'z') || ('A' <= c && c <= 'Z') || ('0' <= c && c <= '9')
}

/// Every character of `s` is an ASCII letter or digit.
pub open spec fn all_alnum(s: Seq<char>) -> bool
    decreases s.len(),
{
    s.len() == 0 || (alnum(s.last()) && all_alnum(s.drop_last()))
}

/// A name's length with its first and last characters, case folded.
pub open spec fn name_sig(s: Seq<char>) -> (nat, char, char) {
    let l = lower_seq(s);
    (l.len(), l[0], l.last())
}

/// The table entry whose name has signature `g`, or -1; no two table names share a
/// signature.
spec fn sig_index(g: (nat, char, char)) -> int {
    if g == (2nat, 'f', '1') {
        0
    } else if g == (2nat, 'f', '2') {
        1
    } else if g == (2nat, 'f', '3') {
        2
    } else if g == (2nat, 'f', '4') {
        3
    } else if g == (2nat, 'f', '5') {
        4
    } else if g == (2nat, 'f', '6') {
        5
    } else if g == (2nat, 'f', '7') {
        6
    } else if g == (2nat, 'f', '8') {
        7
    } else if g == (2nat, 'f', '9') {
        8
    } else if g == (3nat, 'f', '0') {
        9
    } else if g == (3nat, 'f', '1') {
        10
    } else if g == (3nat, 'f', '2') {
        11
    } else if g == (1nat, '1', '1') {
        12
    } else if g == (1nat, '2', '2') {
        13
    } else if g == (1nat, '3', '3') {
        14
    } else if g == (1nat, '4', '4') {
        15
    } else if g == (1nat, '5', '5') {
        16
    } else if g == (1nat, '6', '6') {
        17
    } else if g == (1nat, '7', '7') {
        18
    } else if g == (1nat, '8', '8') {
        19
    } else if g == (1nat, '9', '9') {
        20
    } else if g == (1nat, '0', '0') {
        21
    } else if g == (1nat, 'q', 'q') {
        22
    } else if g == (1nat, 'w', 'w') {
        23
    } else if g == (1nat, 'e', 'e') {
        24
    } else if g == (1nat, 'r', 'r') {
        25
    } else if g == (1nat, 't', 't') {
        26
    } else if g == (1nat, 'y', 'y') {
        27
    } else if g == (1nat, 'u', 'u') {
        28
    } else if g == (1nat, 'i', 'i') {
        29
    } else if g == (1nat, 'o', 'o') {
        30
    } else if g == (1nat, 'p', 'p') {
        31
    } else if g == (1nat, 'a', 'a') {
        32
    } else if g == (1nat, 's', 's') {
        33
    } else if g == (1nat, 'd', 'd') {
        34
    } else if g == (1nat, 'f', 'f') {
        35
    } else if g == (1nat, 'g', 'g') {
        36
    } else if g == (1nat, 'h', 'h') {
        37
    } else if g == (1nat, 'j', 'j') {
        38
    } else if g == (1nat, 'k', 'k') {
        39
    } else if g == (1nat, 'l', 'l') {
        40
    } else if g == (1nat, 'z', 'z') {
        41
    } else if g == (1nat, 'x', 'x') {
        42
    } else if g == (1nat, 'c', 'c') {
        43
    } else if g == (1nat, 'v', 'v') {
        44
    } else if g == (1nat, 'b', 'b') {
        45
    } else if g == (1nat, 'n', 'n') {
        46
    } else if g == (1nat, 'm', 'm') {
        47
    } else if g == (9nat, 'b', 'e') {
        48
    } else if g == (3nat, 't', 'b') {
        49
    } else if g == (5nat, 'e', 'r') {
        50
    } else if g == (5nat, 's', 'e') {
        51
    } else if g == (3nat, 'e', 'c') {
        52
    } else if g == (6nat, 'i', 't') {
        53
    } else if g == (6nat, 'd', 'e') {
        54
    } else if g == (4nat, 'h', 'e') {
        55
    } else if g == (3nat, 'e', 'd') {
        56
    } else if g == (6nat, 'p', 'p') {
        57
    } else if g == (8nat, 'p', 'n') {
        58
    } else if g == (2nat, 'u', 'p') {
        59
    } else if g == (4nat, 'd', 'n') {
        60
    } else if g == (4nat, 'l', 't') {
        61
    } else if g == (5nat, 'r', 't') {
        62
    } else if g == (11nat, 'p', 'n') {
        63
    } else if g == (10nat, 's', 'k') {
        64
    } else if g == (5nat, 'p', 'e') {
        65
    } else {
        -1
    }
}

/// What holds of table entry `j`.
spec fn entry_facts(j: int) -> bool {
    let n = key_entry(j).0;
    &&& n.len() > 0
    &&& all_alnum(n)
    &&& sig_index(name_sig(n)) == j
}

#[verifier::rlimit(100)]
#[verifier::spinoff_prover]
proof fn lemma_entry_facts(j: int)
    requires
        0 <= j < key_count(),
    ensures
        entry_facts(j),
{
    reveal_with_fuel(all_alnum, 12);
    if j == 0 {
    } else if j == 1 {
    } else if j == 2 {
    } else if j == 3 {
    } else if j == 4 {
    } else if j == 5 {
    } else if j == 6 {
    } else if j == 7 {
    } else if j == 8 {
    } else if j == 9 {
    } else if j == 10 {
    } else if j == 11 {
    } else if j == 12 {
    } else if j == 13 {
    } else if j == 14 {
    } else if j == 15 {
    } else if j == 16 {
    } else if j == 17 {
    } else if j == 18 {
    } else if j == 19 {
    } else if j == 20 {
    } else if j == 21 {
    } else if j == 22 {
    } else if j == 23 {
    } else if j == 24 {
    } else if j == 25 {
    } else if j == 26 {
    } else if j == 27 {
    } else if j == 28 {
    } else if j == 29 {
    } else if j == 30 {
    } else if j == 31 {
    } else if j == 32 {
    } else if j == 33 {
    } else if j == 34 {
    } else if j == 35 {
    } else if j == 36 {
    } else if j == 37 {
    } else if j == 38 {
    } else if j == 39 {
    } else if j == 40 {
    } else if j == 41 {
    } else if j == 42 {
    } else if j == 43 {
    } else if j == 44 {
    } else if j == 45 {
    } else if j == 46 {
    } else if j == 47 {
    } else if j == 48 {
    } else if j == 49 {
    } else if j == 50 {
    } else if j == 51 {
    } else if j == 52 {
    } else if j == 53 {
    } else if j == 54 {
    } else if j == 55 {
    } else if j == 56 {
    } else if j == 57 {
    } else if j == 58 {
    } else if j == 59 {
    } else if j == 60 {
    } else if j == 61 {
    } else if j == 62 {
    } else if j == 63 {
    } else if j == 64 {
    } else if j == 65 {
    } else {
    }
}

proof fn lemma_all_alnum_index(s: Seq<char>, k: int)
    requires
        all_alnum(s),
        0 <= k < s.len(),
    ensures
        alnum(s[k]),
    decreases s.len(),
{
    if k < s.len() - 1 {
        lemma_all_alnum_index(s.drop_last(), k);
    }
}

/// No two table names are equal ignoring case.
pub(crate) proof fn lemma_names_distinct(i: int, j: int)
    requires
        0 <= i < key_count(),
        0 <= j < key_count(),
        eq_ci(key_entry(i).0, key_entry(j).0),
    ensures
        i == j,
{
    lemma_entry_facts(i);
    lemma_entry_facts(j);
}

proof fn lemma_first_name_match_at(name: Seq<char>, lo: int, j: int)
    requires
        0 <= lo <= j < key_count(),
        eq_ci(key_entry(j).0, name),
        forall|i: int| lo <= i < j ==> !eq_ci(#[trigger] key_entry(i).0, name),
    ensures
        first_name_match(name, lo) == Some(j),
    decreases j - lo,
{
    if lo < j {
        lemma_first_name_match_at(name, lo + 1, j);
    }
}

/// Looking up the name of entry `j` finds entry `j`.
pub(crate) proof fn lemma_name_found(j: int)
    requires
        0 <= j < key_count(),
    ensures
        first_name_match(key_entry(j).0, 0) == Some(j),
{
    let n = key_entry(j).0;
    assert forall|i: int| 0 <= i < j implies !eq_ci(#[trigger] key_entry(i).0, n) by {
        if eq_ci(key_entry(i).0, n) {
            lemma_names_distinct(i, j);
        }
    }
    lemma_first_name_match_at(n, 0, j);
}

/// No table name is a modifier word.
pub(crate) proof fn lemma_name_not_modifier(j: int)
    requires
        0 <= j < key_count(),
    ensures
        modifier_index(key_entry(j).0) is None,
{
    lemma_entry_facts(j);
    let n = key_entry(j).0;
    let l = lower_seq(n);
    if l == seq!['s', 'h', 'i', 'f', 't'] {
        assert(name_sig(n) == (5nat, 's', 't'));
    }
    if l == seq!['c', 't', 'r', 'l'] {
        assert(name_sig(n) == (4nat, 'c', 'l'));
    }
    if l == seq!['c', 'o', 'n', 't', 'r', 'o', 'l'] {
        assert(name_sig(n) == (7nat, 'c', 'l'));
    }
    if l == seq!['a', 'l', 't'] {
        assert(name_sig(n) == (3nat, 'a', 't'));
    }
}

/// A table name has no surrounding whitespace and no `+`.
pub(crate) proof fn lemma_name_plain(j: int)
    requires
        0 <= j < key_count(),
    ensures
        trim(key_entry(j).0) == key_entry(j).0,
        forall|k: int| 0 <= k < key_entry(j).0.len() ==> key_entry(j).0[k] != '+',
{
    lemma_entry_facts(j);
    let n = key_entry(j).0;
    lemma_all_alnum_index(n, 0);
    lemma_all_alnum_index(n, n.len() - 1);
    assert(!is_ws(n[0]));
    assert(!is_ws(n.last()));
    assert(trim_start(n) == n);
    assert(trim_end(n) == n);
    assert forall|k: int| 0 <= k < n.len() implies n[k] != '+' by {
        lemma_all_alnum_index(n, k);
    }
}

} // verus!
