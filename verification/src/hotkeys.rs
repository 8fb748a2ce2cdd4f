//! Helpers for installing GNOME custom keybindings. GNOME stores them as a dconf
//! array of object paths: the existing list is parsed, ours merged in without
//! clobbering, and the list formatted back.

use vstd::prelude::*;
use crate::text::{
    chars_of, has_prefix, is_ws, join, push_chars, push_joined, push_str, slice_chars, split_chars,
    split_fold, split_on, starts_with, string_from_chars, trim, trim_chars, trim_end, trim_start,
    lemma_split_fold_append_plain, lemma_split_fold_push_sep,
};

verus! {

/// A keybinding to install: a unique slug, a display name, the command to run, and the
/// accelerator (e.g. `<Super>d`).
#[derive(Debug, Clone, PartialEq, Eq)]
pub struct Hotkey {
    pub slug: &'static str,
    pub name: &'static str,
    pub command: String,
    pub binding: &'static str,
}

/// The dconf directory of GNOME's custom keybindings.
pub open spec fn keybinding_dir() -> Seq<char> {
    "/org/gnome/settings-daemon/plugins/media-keys/custom-keybindings/"@
}

/// The dconf object path for a custom keybinding with the given slug.
pub fn keybinding_path(slug: &str) -> (p: String)
    ensures
        p@ == keybinding_dir() + slug@ + "/"@,
{
    let mut v: Vec<char> = Vec::new();
    push_str(&mut v, "/org/gnome/settings-daemon/plugins/media-keys/custom-keybindings/");
    push_str(&mut v, slug);
    push_str(&mut v, "/");
    string_from_chars(&v)
}

/// `s` with every leading repetition of `p` removed (`str::trim_start_matches`).
pub open spec fn strip_repeated(s: Seq<char>, p: Seq<char>) -> Seq<char>
    decreases s.len(),
{
    if p.len() > 0 && has_prefix(s, p) {
        strip_repeated(s.subrange(p.len() as int, s.len() as int), p)
    } else {
        s
    }
}

/// A single or double quote.
pub open spec fn is_quote(c: char) -> bool {
    c == '\'' || c == '"'
}

/// `s` with leading quotes removed.
pub open spec fn unquote_start(s: Seq<char>) -> Seq<char>
    decreases s.len(),
{
    if s.len() > 0 && is_quote(s[0]) {
        unquote_start(s.drop_first())
    } else {
        s
    }
}

/// `s` with trailing quotes removed.
pub open spec fn unquote_end(s: Seq<char>) -> Seq<char>
    decreases s.len(),
{
    if s.len() > 0 && is_quote(s.last()) {
        unquote_end(s.drop_last())
    } else {
        s
    }
}

/// `s` with quotes removed from both ends.
pub open spec fn unquote(s: Seq<char>) -> Seq<char> {
    unquote_end(unquote_start(s))
}

/// The text between the brackets of a dconf array, or empty when `t` is not bracketed.
pub open spec fn bracket_inner(t: Seq<char>) -> Seq<char> {
    if t.len() >= 2 && t[0] == '[' && t.last() == ']' {
        t.subrange(1, t.len() - 1)
    } else {
        Seq::empty()
    }
}

/// The non-empty items of `ps`, in order.
pub open spec fn non_empty(ps: Seq<Seq<char>>) -> Seq<Seq<char>>
    decreases ps.len(),
{
    if ps.len() == 0 {
        Seq::empty()
    } else if ps.last().len() > 0 {
        non_empty(ps.drop_last()).push(ps.last())
    } else {
        non_empty(ps.drop_last())
    }
}

/// The paths a dconf `as` array string holds (`['/a/', '/b/']`, `[]`, or `@as []`): the
/// trimmed text loses any `@as` prefix, its bracketed inside is split on commas, each
/// item is trimmed and unquoted, and empty items are dropped.
pub open spec fn path_list_of(s: Seq<char>) -> Seq<Seq<char>> {
    let inner = bracket_inner(trim(strip_repeated(trim(s), "@as"@)));
    non_empty(split_on(inner, ',').map_values(|p: Seq<char>| unquote(trim(p))))
}

/// `s` with every leading `@as` removed.
fn strip_as(s: &[char]) -> (t: Vec<char>)
    ensures
        t@ == strip_repeated(s@, "@as"@),
{
    let p = chars_of("@as");
    proof {
        reveal_strlit("@as");
    }
    let mut cur: Vec<char> = slice_chars(s, 0, s.len());
    assert(s@.subrange(0, s@.len() as int) =~= s@);
    while starts_with(&cur, &p)
        invariant
            p@ == "@as"@,
            p@.len() == 3,
            strip_repeated(s@, "@as"@) == strip_repeated(cur@, "@as"@),
        decreases cur@.len(),
    {
        cur = slice_chars(&cur, 3, cur.len());
    }
    cur
}

/// `s` with quotes removed from both ends.
fn unquote_chars(s: &[char]) -> (t: Vec<char>)
    ensures
        t@ == unquote(s@),
{
    let mut i: usize = 0;
    assert(s@.subrange(0, s@.len() as int) =~= s@);
    while i < s.len() && (s[i] == '\'' || s[i] == '"')
        invariant
            i <= s@.len(),
            unquote_start(s@) == unquote_start(s@.subrange(i as int, s@.len() as int)),
        decreases s@.len() - i,
    {
        assert(s@.subrange(i as int, s@.len() as int).drop_first() =~= s@.subrange(
            i + 1,
            s@.len() as int,
        ));
        i += 1;
    }
    let mut j: usize = s.len();
    assert(unquote_start(s@) == s@.subrange(i as int, j as int));
    while j > i && (s[j - 1] == '\'' || s[j - 1] == '"')
        invariant
            i <= j <= s@.len(),
            unquote(s@) == unquote_end(s@.subrange(i as int, j as int)),
        decreases j,
    {
        assert(s@.subrange(i as int, j as int).drop_last() =~= s@.subrange(i as int, j - 1));
        j -= 1;
    }
    slice_chars(s, i, j)
}

/// Parse a dconf `as` array string.
pub fn parse_path_list(s: &str) -> (paths: Vec<String>)
    ensures
        paths@.map_values(|p: String| p@) == path_list_of(s@),
{
    let all = chars_of(s);
    let t1 = trim_chars(&all);
    let t2 = strip_as(&t1);
    let t3 = trim_chars(&t2);
    let inner: Vec<char> = if t3.len() >= 2 && t3[0] == '[' && t3[t3.len() - 1] == ']' {
        slice_chars(&t3, 1, t3.len() - 1)
    } else {
        Vec::new()
    };
    assert(inner@ =~= bracket_inner(trim(strip_repeated(trim(s@), "@as"@))));
    let fields = split_chars(&inner, ',');
    let ghost items = split_on(inner@, ',').map_values(|p: Seq<char>| unquote(trim(p)));
    let mut out: Vec<String> = Vec::new();
    let mut i: usize = 0;
    while i < fields.len()
        invariant
            i <= fields@.len(),
            fields@.len() == split_on(inner@, ',').len(),
            forall|k: int| 0 <= k < fields@.len() ==> #[trigger] fields@[k]@ == split_on(inner@, ',')[k],
            items == split_on(inner@, ',').map_values(|p: Seq<char>| unquote(trim(p))),
            out@.map_values(|p: String| p@) == non_empty(items.subrange(0, i as int)),
        decreases fields@.len() - i,
    {
        let f = trim_chars(&fields[i]);
        let u = unquote_chars(&f);
        assert(items.subrange(0, i + 1).drop_last() =~= items.subrange(0, i as int));
        assert(items[i as int] == u@);
        if u.len() > 0 {
            out.push(string_from_chars(&u));
        }
        assert(out@.map_values(|p: String| p@) =~= non_empty(items.subrange(0, i + 1)));
        i += 1;
    }
    assert(items.subrange(0, fields@.len() as int) =~= items);
    out
}

/// The dconf array literal for a path list: `@as []` when empty, else each path in
/// single quotes, joined by `, ` inside brackets.
pub open spec fn path_list_literal(paths: Seq<Seq<char>>) -> Seq<char> {
    if paths.len() == 0 {
        "@as []"@
    } else {
        "["@ + join(paths.map_values(|p: Seq<char>| "'"@ + p + "'"@), ", "@) + "]"@
    }
}

/// Format a path list back into a dconf array literal.
pub fn format_path_list(paths: &[String]) -> (s: String)
    ensures
        s@ == path_list_literal(paths@.map_values(|p: String| p@)),
{
    if paths.len() == 0 {
        return "@as []".to_owned();
    }
    let ghost pv = paths@.map_values(|p: String| p@);
    let mut quoted: Vec<Vec<char>> = Vec::new();
    let mut i: usize = 0;
    while i < paths.len()
        invariant
            i <= paths@.len(),
            pv == paths@.map_values(|p: String| p@),
            quoted@.len() == i,
            forall|k: int| 0 <= k < i ==> #[trigger] quoted@[k]@ == "'"@ + pv[k] + "'"@,
        decreases paths@.len() - i,
    {
        let mut q: Vec<char> = Vec::new();
        push_str(&mut q, "'");
        let body = chars_of(paths[i].as_str());
        push_chars(&mut q, &body);
        push_str(&mut q, "'");
        assert(body@ == pv[i as int]);
        quoted.push(q);
        i += 1;
    }
    assert(quoted@.map_values(|w: Vec<char>| w@) =~= pv.map_values(|p: Seq<char>| "'"@ + p + "'"@));
    let mut out: Vec<char> = Vec::new();
    push_str(&mut out, "[");
    push_joined(&mut out, &quoted, ", ");
    push_str(&mut out, "]");
    string_from_chars(&out)
}

/// `existing` with each path of `add` appended in order, unless already present.
pub open spec fn merged(existing: Seq<Seq<char>>, add: Seq<Seq<char>>) -> Seq<Seq<char>>
    decreases add.len(),
{
    if add.len() == 0 {
        existing
    } else {
        let m = merged(existing, add.drop_last());
        if m.contains(add.last()) {
            m
        } else {
            m.push(add.last())
        }
    }
}

/// Merging keeps the existing paths first and in order, adds every new path, adds
/// nothing else, and brings in no duplicate when the existing list had none.
pub proof fn lemma_merge_keeps_existing_and_adds_each_once(
    existing: Seq<Seq<char>>,
    add: Seq<Seq<char>>,
)
    ensures
        merged(existing, add).len() >= existing.len(),
        merged(existing, add).subrange(0, existing.len() as int) == existing,
        forall|p: Seq<char>| add.contains(p) ==> merged(existing, add).contains(p),
        forall|p: Seq<char>|
            merged(existing, add).contains(p) ==> existing.contains(p) || add.contains(p),
        existing.no_duplicates() ==> merged(existing, add).no_duplicates(),
    decreases add.len(),
{
    if add.len() > 0 {
        let before = add.drop_last();
        lemma_merge_keeps_existing_and_adds_each_once(existing, before);
        let m = merged(existing, before);
        let x = add.last();
        assert(m.push(x).subrange(0, existing.len() as int) =~= m.subrange(
            0,
            existing.len() as int,
        ));
        assert forall|p: Seq<char>| add.contains(p) implies merged(existing, add).contains(p) by {
            let i = choose|i: int| 0 <= i < add.len() && add[i] == p;
            if i < add.len() - 1 {
                assert(before[i] == p);
                assert(before.contains(p));
                let j = choose|j: int| 0 <= j < m.len() && m[j] == p;
                if !m.contains(x) {
                    assert(m.push(x)[j] == p);
                }
            } else if !m.contains(x) {
                assert(m.push(x)[m.len() as int] == p);
            }
        }
        assert forall|p: Seq<char>|
            merged(existing, add).contains(p) implies existing.contains(p) || add.contains(p) by {
            let r = merged(existing, add);
            let j = choose|j: int| 0 <= j < r.len() && r[j] == p;
            if j < m.len() {
                assert(m[j] == p);
                assert(m.contains(p));
                if before.contains(p) {
                    let i = choose|i: int| 0 <= i < before.len() && before[i] == p;
                    assert(add[i] == p);
                }
            } else {
                assert(add[add.len() - 1] == p);
            }
        }
    }
}

/// Whether `p` occurs among `ps`.
fn contains_path(ps: &Vec<String>, p: &String) -> (b: bool)
    ensures
        b == ps@.map_values(|q: String| q@).contains(p@),
{
    let ghost pv = ps@.map_values(|q: String| q@);
    let mut i: usize = 0;
    while i < ps.len()
        invariant
            i <= ps@.len(),
            pv == ps@.map_values(|q: String| q@),
            forall|k: int| 0 <= k < i ==> pv[k] != p@,
        decreases ps@.len() - i,
    {
        if ps[i] == *p {
            assert(pv[i as int] == p@);
            return true;
        }
        i += 1;
    }
    false
}

/// Merge `add` into `existing`, preserving order and dropping duplicates.
pub fn merge_paths(existing: &[String], add: &[String]) -> (out: Vec<String>)
    ensures
        out@.map_values(|p: String| p@) == merged(
            existing@.map_values(|p: String| p@),
            add@.map_values(|p: String| p@),
        ),
{
    let ghost ev = existing@.map_values(|p: String| p@);
    let ghost av = add@.map_values(|p: String| p@);
    let mut out: Vec<String> = Vec::new();
    let mut i: usize = 0;
    while i < existing.len()
        invariant
            i <= existing@.len(),
            ev == existing@.map_values(|p: String| p@),
            out@.len() == i,
            forall|k: int| 0 <= k < i ==> #[trigger] out@[k]@ == ev[k],
        decreases existing@.len() - i,
    {
        out.push(existing[i].clone());
        i += 1;
    }
    assert(out@.map_values(|p: String| p@) =~= ev);
    let mut j: usize = 0;
    while j < add.len()
        invariant
            j <= add@.len(),
            ev == existing@.map_values(|p: String| p@),
            av == add@.map_values(|p: String| p@),
            out@.map_values(|p: String| p@) == merged(ev, av.subrange(0, j as int)),
        decreases add@.len() - j,
    {
        assert(av.subrange(0, j + 1).drop_last() =~= av.subrange(0, j as int));
        if !contains_path(&out, &add[j]) {
            out.push(add[j].clone());
        }
        assert(out@.map_values(|p: String| p@) =~= merged(ev, av.subrange(0, j + 1)));
        j += 1;
    }
    assert(av.subrange(0, add@.len() as int) =~= av);
    out
}

/// A path that survives a format-then-parse round trip: non-empty, free of commas,
/// and neither starting nor ending with a quote.
pub open spec fn plain_path(p: Seq<char>) -> bool {
    &&& p.len() > 0
    &&& forall|k: int| 0 <= k < p.len() ==> p[k] != ','
    &&& !is_quote(p[0])
    &&& !is_quote(p.last())
}

/// A path in single quotes, as the array literal writes it.
pub open spec fn quoted(p: Seq<char>) -> Seq<char> {
    "'"@ + p + "'"@
}

/// The comma-separated fields of a `", "`-joined list: the first item, then each later
/// item after its separating space.
pub open spec fn joined_fields(qs: Seq<Seq<char>>) -> Seq<Seq<char>> {
    Seq::new(qs.len(), |i: int| if i == 0 { qs[0] } else { seq![' '] + qs[i] })
}

proof fn lemma_split_joined(qs: Seq<Seq<char>>)
    requires
        qs.len() > 0,
        forall|i: int, k: int| 0 <= i < qs.len() && 0 <= k < qs[i].len() ==> qs[i][k] != ',',
    ensures
        split_on(join(qs, ", "@), ',') == joined_fields(qs),
    decreases qs.len(),
{
    reveal_strlit(", ");
    let e = Seq::<char>::empty();
    if qs.len() == 1 {
        lemma_split_fold_append_plain(e, qs[0], ',');
        assert(e + qs[0] =~= qs[0]);
        assert(split_on(join(qs, ", "@), ',') =~= joined_fields(qs));
    } else {
        let d = qs.drop_last();
        let l = qs.last();
        lemma_split_joined(d);
        let jd = join(d, ", "@);
        assert(join(qs, ", "@) =~= jd.push(',') + (seq![' '] + l));
        lemma_split_fold_push_sep(jd, ',');
        assert forall|k: int| 0 <= k < (seq![' '] + l).len() implies (seq![' '] + l)[k] != ',' by {
            if k > 0 {
                assert((seq![' '] + l)[k] == l[k - 1]);
            }
        }
        lemma_split_fold_append_plain(jd.push(','), seq![' '] + l, ',');
        assert(e + (seq![' '] + l) =~= seq![' '] + l);
        assert(split_on(join(qs, ", "@), ',') =~= joined_fields(qs));
    }
}

proof fn lemma_field_unquotes(p: Seq<char>, lead: bool)
    requires
        plain_path(p),
    ensures
        unquote(trim(if lead { seq![' '] + quoted(p) } else { quoted(p) })) == p,
{
    reveal_strlit("'");
    let q = quoted(p);
    assert(q =~= seq!['\''] + p + seq!['\'']);
    assert(trim_start(q) == q);
    if lead {
        assert((seq![' '] + q).drop_first() =~= q);
        assert(trim_start(seq![' '] + q) == trim_start(q));
    }
    assert(trim_end(q) == q);
    assert(q.drop_first() =~= p + seq!['\'']);
    assert(unquote_start(q) == unquote_start(p + seq!['\'']));
    assert((p + seq!['\''])[0] == p[0]);
    assert(unquote_start(p + seq!['\'']) == p + seq!['\'']);
    assert((p + seq!['\'']).drop_last() =~= p);
    assert(unquote_end(p + seq!['\'']) == unquote_end(p));
    assert(unquote_end(p) == p);
}

proof fn lemma_non_empty_keeps(ps: Seq<Seq<char>>)
    requires
        forall|i: int| 0 <= i < ps.len() ==> ps[i].len() > 0,
    ensures
        non_empty(ps) == ps,
    decreases ps.len(),
{
    if ps.len() > 0 {
        lemma_non_empty_keeps(ps.drop_last());
        assert(ps.drop_last().push(ps.last()) =~= ps);
    }
}

/// Formatting a path list and parsing it back gives the same list, for paths that are
/// non-empty, free of commas and neither start nor end with a quote.
pub proof fn lemma_path_list_round_trip(paths: Seq<Seq<char>>)
    requires
        forall|i: int| 0 <= i < paths.len() ==> plain_path(#[trigger] paths[i]),
    ensures
        path_list_of(path_list_literal(paths)) == paths,
{
    reveal_strlit("@as []");
    reveal_strlit("@as");
    reveal_strlit("[");
    reveal_strlit("]");
    reveal_strlit("'");
    let lit = path_list_literal(paths);
    if paths.len() == 0 {
        let a = seq!['@', 'a', 's', ' ', '[', ']'];
        assert(lit =~= a);
        assert(trim_start(a) == a);
        assert(trim_end(a) == a);
        assert(a.subrange(0, 3) =~= "@as"@);
        let b = seq![' ', '[', ']'];
        assert(a.subrange(3, 6) =~= b);
        assert(!has_prefix(b, "@as"@)) by {
            assert("@as"@ =~= seq!['@', 'a', 's']);
            assert(b.subrange(0, 3)[0] == ' ');
        }
        assert(strip_repeated(b, "@as"@) == b);
        assert(strip_repeated(a, "@as"@) == b);
        let c = seq!['[', ']'];
        assert(b.drop_first() =~= c);
        assert(trim_start(b) == trim_start(c));
        assert(trim_start(c) == c);
        assert(trim_end(c) == c);
        assert(bracket_inner(c) =~= Seq::<char>::empty());
        let e = Seq::<char>::empty();
        assert(split_fold(e, ',') == (Seq::<Seq<char>>::empty(), e));
        assert(split_on(e, ',') =~= seq![e]);
        assert(trim_start(e) == e && trim_end(e) == e);
        assert(unquote_start(e) == e && unquote_end(e) == e);
        let m = split_on(e, ',').map_values(|p: Seq<char>| unquote(trim(p)));
        assert(m =~= seq![e]);
        assert(non_empty(m) =~= non_empty(m.drop_last()));
        assert(m.drop_last() =~= Seq::<Seq<char>>::empty());
    } else {
        let qs = paths.map_values(|p: Seq<char>| "'"@ + p + "'"@);
        let j = join(qs, ", "@);
        assert(lit =~= seq!['['] + j + seq![']']);
        assert(lit[0] == '[' && lit.last() == ']');
        assert(trim_start(lit) == lit);
        assert(trim_end(lit) == lit);
        assert(!has_prefix(lit, "@as"@)) by {
            assert(lit.subrange(0, 3)[0] == '[');
        }
        assert(strip_repeated(lit, "@as"@) == lit);
        assert(bracket_inner(lit) =~= j);
        assert forall|i: int, k: int| 0 <= i < qs.len() && 0 <= k < qs[i].len() implies qs[i][k]
            != ',' by {
            assert(qs[i] =~= seq!['\''] + paths[i] + seq!['\'']);
            assert(plain_path(paths[i]));
            if 0 < k < qs[i].len() - 1 {
                assert(qs[i][k] == paths[i][k - 1]);
            }
        }
        lemma_split_joined(qs);
        let m = joined_fields(qs).map_values(|p: Seq<char>| unquote(trim(p)));
        assert forall|i: int| 0 <= i < m.len() implies m[i] == paths[i] by {
            assert(plain_path(paths[i]));
            assert(qs[i] == quoted(paths[i]));
            lemma_field_unquotes(paths[i], i > 0);
        }
        assert(m =~= paths);
        lemma_non_empty_keeps(paths);
    }
}

} // verus!
