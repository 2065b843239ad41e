//! HTML escaping and the file-name stems of preview files.

use vstd::prelude::*;
use crate::chars::chars_of;

verus! {

/// The entity that stands for `c` in escaped text, or `c` itself.
pub open spec fn escape_char(c: char) -> Seq<char> {
    if c == '&' {
        seq!['&', 'a', 'm', 'p', ';']
    } else if c == '<' {
        seq!['&', 'l', 't', ';']
    } else if c == '>' {
        seq!['&', 'g', 't', ';']
    } else if c == '"' {
        seq!['&', 'q', 'u', 'o', 't', ';']
    } else if c == '\'' {
        seq!['&', '#', '3', '9', ';']
    } else {
        seq![c]
    }
}

/// `s` with `&`, `<`, `>`, `"` and `'` replaced by their entities.
pub open spec fn escaped(s: Seq<char>) -> Seq<char>
    decreases s.len(),
{
    if s.len() == 0 {
        seq![]
    } else {
        escaped(s.drop_last()) + escape_char(s.last())
    }
}

/// Escapes the characters that are special in HTML text and attribute values.
pub fn escape_html(input: &str) -> (out: String)
    ensures
        out@ == escaped(input@),
{
    let s = chars_of(input);
    let mut out = String::new();
    let mut i: usize = 0;
    while i < s.len()
        invariant
            i <= s.len(),
            s@ == input@,
            out@ == escaped(s@.subrange(0, i as int)),
        decreases s.len() - i,
    {
        let c = s[i];
        if c == '&' {
            out.push('&');
            out.push('a');
            out.push('m');
            out.push('p');
            out.push(';');
        } else if c == '<' {
            out.push('&');
            out.push('l');
            out.push('t');
            out.push(';');
        } else if c == '>' {
            out.push('&');
            out.push('g');
            out.push('t');
            out.push(';');
        } else if c == '"' {
            out.push('&');
            out.push('q');
            out.push('u');
            out.push('o');
            out.push('t');
            out.push(';');
        } else if c == '\'' {
            out.push('&');
            out.push('#');
            out.push('3');
            out.push('9');
            out.push(';');
        } else {
            out.push(c);
        }
        assert(s@.subrange(0, i + 1).drop_last() == s@.subrange(0, i as int));
        i = i + 1;
    }
    assert(s@.subrange(0, s.len() as int) == s@);
    out
}

/// An ASCII letter or digit.
pub open spec fn is_ascii_alphanumeric(c: char) -> bool {
    ('a' <= c && c <= 'z') || ('A' <= c && c <= 'Z') || ('0' <= c && c <= '9')
}

/// The character that stands for `c` in a file-name stem.
pub open spec fn stem_char(c: char) -> char {
    if is_ascii_alphanumeric(c) || c == '-' || c == '_' {
        c
    } else {
        '-'
    }
}

/// Number of dashes that begin `s` from `i` on.
pub open spec fn dashes_from(s: Seq<char>, i: int) -> nat
    decreases s.len() - i,
{
    if 0 <= i < s.len() && s[i] == '-' {
        1 + dashes_from(s, i + 1)
    } else {
        0
    }
}

/// Number of dashes that end `s[..j]`.
pub open spec fn dashes_before(s: Seq<char>, j: int) -> nat
    decreases j,
{
    if 0 < j <= s.len() && s[j - 1] == '-' {
        1 + dashes_before(s, j - 1)
    } else {
        0
    }
}

/// `s` without its leading and trailing dashes.
pub open spec fn trim_dashes(s: Seq<char>) -> Seq<char> {
    let lead = dashes_from(s, 0) as int;
    if lead >= s.len() {
        seq![]
    } else {
        s.subrange(lead, s.len() - dashes_before(s, s.len() as int))
    }
}

/// The stem a preview file is named after: each character other than ASCII
/// letters, digits, `-` and `_` becomes `-`, dashes are trimmed from both
/// ends, and an empty result becomes `preview`.
pub open spec fn sanitized_stem(s: Seq<char>) -> Seq<char> {
    let t = trim_dashes(s.map_values(|c: char| stem_char(c)));
    if t.len() == 0 {
        seq!['p', 'r', 'e', 'v', 'i', 'e', 'w']
    } else {
        t
    }
}

pub proof fn lemma_dashes_from(s: Seq<char>, i: int)
    ensures
        0 <= i <= s.len() ==> i + dashes_from(s, i) <= s.len(),
        forall|k: int| i <= k < i + dashes_from(s, i) ==> #[trigger] s[k] == '-',
        0 <= i && i + dashes_from(s, i) < s.len() ==> s[i + dashes_from(s, i)] != '-',
    decreases s.len() - i,
{
    if 0 <= i < s.len() && s[i] == '-' {
        lemma_dashes_from(s, i + 1);
    }
}

pub proof fn lemma_dashes_before(s: Seq<char>, j: int)
    ensures
        0 <= j <= s.len() ==> dashes_before(s, j) <= j,
        forall|k: int| j - dashes_before(s, j) <= k < j ==> #[trigger] s[k] == '-',
        0 <= j <= s.len() && j - dashes_before(s, j) > 0 ==> s[j - dashes_before(s, j) - 1]
            != '-',
    decreases j,
{
    if 0 < j <= s.len() && s[j - 1] == '-' {
        lemma_dashes_before(s, j - 1);
    }
}

/// Turns a file stem into one that is safe in a file name: see
/// `sanitized_stem`.
pub fn sanitize_file_stem(input: &str) -> (out: String)
    ensures
        out@ == sanitized_stem(input@),
{
    let s = chars_of(input);
    let ghost mapped = input@.map_values(|c: char| stem_char(c));
    let mut m: Vec<char> = Vec::new();
    let mut i: usize = 0;
    while i < s.len()
        invariant
            i <= s.len(),
            s@ == input@,
            mapped == input@.map_values(|c: char| stem_char(c)),
            m@ == mapped.subrange(0, i as int),
        decreases s.len() - i,
    {
        let c = s[i];
        let ok = ('a' <= c && c <= 'z') || ('A' <= c && c <= 'Z') || ('0' <= c && c <= '9') || c
            == '-' || c == '_';
        if ok {
            m.push(c);
        } else {
            m.push('-');
        }
        i = i + 1;
        assert(m@ == mapped.subrange(0, i as int));
    }
    assert(m@ == mapped);
    let mut lo: usize = 0;
    while lo < m.len() && m[lo] == '-'
        invariant
            lo <= m.len(),
            dashes_from(m@, 0) == lo + dashes_from(m@, lo as int),
        decreases m.len() - lo,
    {
        lo = lo + 1;
    }
    let mut out = String::new();
    if lo >= m.len() {
        out.push('p');
        out.push('r');
        out.push('e');
        out.push('v');
        out.push('i');
        out.push('e');
        out.push('w');
        return out;
    }
    let mut hi: usize = m.len();
    while hi > 0 && m[hi - 1] == '-'
        invariant
            hi <= m.len(),
            dashes_before(m@, m.len() as int) == (m.len() - hi) + dashes_before(m@, hi as int),
        decreases hi,
    {
        hi = hi - 1;
    }
    proof {
        lemma_dashes_from(m@, 0);
        lemma_dashes_before(m@, m.len() as int);
        // the first character after the leading dashes is no dash, so the
        // trailing dashes stop after it
        assert(hi > lo) by {
            if hi <= lo {
                assert(m@[lo as int] != '-');
                assert(m.len() - dashes_before(m@, m.len() as int) == hi);
                assert(m@[lo as int] == '-');
            }
        }
    }
    let mut k = lo;
    while k < hi
        invariant
            lo <= k <= hi <= m.len(),
            out@ == m@.subrange(lo as int, k as int),
        decreases hi - k,
    {
        out.push(m[k]);
        k = k + 1;
        assert(out@ == m@.subrange(lo as int, k as int));
    }
    out
}

pub proof fn lemma_escaped_append(a: Seq<char>, b: Seq<char>)
    ensures
        escaped(a + b) == escaped(a) + escaped(b),
    decreases b.len(),
{
    if b.len() == 0 {
        assert(a + b =~= a);
        assert(escaped(a) + escaped(b) =~= escaped(a));
    } else {
        lemma_escaped_append(a, b.drop_last());
        assert((a + b).drop_last() =~= a + b.drop_last());
        assert((a + b).last() == b.last());
        assert(escaped(a) + escaped(b) =~= escaped(a) + escaped(b.drop_last()) + escape_char(
            b.last(),
        ));
    }
}

proof fn lemma_escaped_single(c: char)
    ensures
        escaped(seq![c]) == escape_char(c),
{
    let s = seq![c];
    assert(s.drop_last() =~= seq![]);
    assert(s.last() == c);
    assert(escaped(s.drop_last()) == Seq::<char>::empty());
    assert(escaped(s) =~= escape_char(c));
}

proof fn lemma_escape_char_prefix(c: char, d: char, x: Seq<char>, y: Seq<char>)
    requires
        escape_char(c) + x == escape_char(d) + y,
    ensures
        c == d,
        x == y,
{
    let l = escape_char(c) + x;
    let r = escape_char(d) + y;
    assert(l[0] == r[0]);
    if c == '&' || c == '<' || c == '>' || c == '"' || c == '\'' {
        assert(l[1] == r[1]);
    }
    assert(escape_char(c) == escape_char(d));
    assert(x =~= l.skip(escape_char(c).len() as int));
    assert(y =~= r.skip(escape_char(d).len() as int));
}

/// Escaping loses nothing: two texts that escape to the same text are the
/// same text.
pub proof fn escaping_is_injective(a: Seq<char>, b: Seq<char>)
    requires
        escaped(a) == escaped(b),
    ensures
        a == b,
    decreases a.len(),
{
    if a.len() == 0 || b.len() == 0 {
        if a.len() != 0 {
            lemma_escaped_append(seq![a[0]], a.drop_first());
            assert(seq![a[0]] + a.drop_first() =~= a);
            lemma_escaped_single(a[0]);
        }
        if b.len() != 0 {
            lemma_escaped_append(seq![b[0]], b.drop_first());
            assert(seq![b[0]] + b.drop_first() =~= b);
            lemma_escaped_single(b[0]);
        }
        assert(a =~= b);
    } else {
        lemma_escaped_append(seq![a[0]], a.drop_first());
        lemma_escaped_append(seq![b[0]], b.drop_first());
        assert(seq![a[0]] + a.drop_first() =~= a);
        assert(seq![b[0]] + b.drop_first() =~= b);
        lemma_escaped_single(a[0]);
        lemma_escaped_single(b[0]);
        lemma_escape_char_prefix(a[0], b[0], escaped(a.drop_first()), escaped(b.drop_first()));
        escaping_is_injective(a.drop_first(), b.drop_first());
        assert(a =~= b);
    }
}

/// Escaped text holds none of `<`, `>`, `"` and `'`, so it can stand in
/// element content and in quoted attribute values.
pub proof fn escaped_has_no_markup(s: Seq<char>)
    ensures
        forall|i: int|
            0 <= i < escaped(s).len() ==> #[trigger] escaped(s)[i] != '<' && escaped(s)[i] != '>'
                && escaped(s)[i] != '"' && escaped(s)[i] != '\'',
    decreases s.len(),
{
    if s.len() > 0 {
        escaped_has_no_markup(s.drop_last());
        let e = escaped(s);
        let p = escaped(s.drop_last());
        let t = escape_char(s.last());
        assert(e == p + t);
        assert forall|i: int| 0 <= i < e.len() implies #[trigger] e[i] != '<' && e[i] != '>'
            && e[i] != '"' && e[i] != '\'' by {
            if i < p.len() {
                assert(e[i] == p[i]);
            } else {
                assert(e[i] == t[i - p.len()]);
            }
        }
    }
}

/// A stem character: an ASCII letter or digit, `-` or `_`.
pub open spec fn is_stem_char(c: char) -> bool {
    is_ascii_alphanumeric(c) || c == '-' || c == '_'
}

/// A sanitized stem is never empty, holds only ASCII letters, digits, `-`
/// and `_`, and neither starts nor ends with `-`.
pub proof fn sanitized_stem_is_clean(s: Seq<char>)
    ensures
        sanitized_stem(s).len() > 0,
        forall|i: int| 0 <= i < sanitized_stem(s).len() ==> is_stem_char(#[trigger] sanitized_stem(s)[i]),
        sanitized_stem(s)[0] != '-',
        sanitized_stem(s).last() != '-',
{
    let m = s.map_values(|c: char| stem_char(c));
    let t = trim_dashes(m);
    lemma_dashes_from(m, 0);
    lemma_dashes_before(m, m.len() as int);
    if t.len() != 0 {
        let lead = dashes_from(m, 0) as int;
        let hi = m.len() - dashes_before(m, m.len() as int);
        assert(lead < m.len());
        assert(m[lead] != '-');
        assert(hi > lead) by {
            if hi <= lead {
                assert(m[lead] == '-');
            }
        }
        assert(t == m.subrange(lead, hi));
        assert(t[0] == m[lead]);
        assert(t.last() == m[hi - 1]);
        assert forall|i: int| 0 <= i < t.len() implies is_stem_char(#[trigger] t[i]) by {
            assert(t[i] == m[lead + i]);
            assert(m[lead + i] == stem_char(s[lead + i]));
        }
    } else {
        let p = seq!['p', 'r', 'e', 'v', 'i', 'e', 'w'];
        assert forall|i: int| 0 <= i < p.len() implies is_stem_char(#[trigger] p[i]) by {
        }
    }
}

/// Sanitizing a sanitized stem leaves it as it is.
pub proof fn sanitizing_is_idempotent(s: Seq<char>)
    ensures
        sanitized_stem(sanitized_stem(s)) == sanitized_stem(s),
{
    let t = sanitized_stem(s);
    sanitized_stem_is_clean(s);
    let m = t.map_values(|c: char| stem_char(c));
    assert(m =~= t) by {
        assert forall|i: int| 0 <= i < t.len() implies m[i] == t[i] by {
            assert(is_stem_char(t[i]));
        }
    }
    assert(dashes_from(t, 0) == 0);
    assert(dashes_before(t, t.len() as int) == 0);
    assert(t.subrange(0, t.len() as int) =~= t);
}

/// A stem with no ASCII letter, digit or `_` sanitizes to `preview`.
pub proof fn stems_without_name_characters_become_preview(s: Seq<char>)
    requires
        forall|k: int| 0 <= k < s.len() ==> !(is_ascii_alphanumeric(#[trigger] s[k]) || s[k] == '_'),
    ensures
        sanitized_stem(s) == seq!['p', 'r', 'e', 'v', 'i', 'e', 'w'],
{
    let m = s.map_values(|c: char| stem_char(c));
    assert forall|k: int| 0 <= k < m.len() implies #[trigger] m[k] == '-' by {
        assert(m[k] == stem_char(s[k]));
    }
    lemma_dashes_from(m, 0);
    if dashes_from(m, 0) < m.len() {
        assert(m[dashes_from(m, 0) as int] == '-');
    }
}

/// Text without `&`, `<`, `>`, `"` and `'` escapes to itself.
pub proof fn plain_text_escapes_to_itself(s: Seq<char>)
    requires
        forall|k: int| 0 <= k < s.len() ==> !(#[trigger] s[k] == '&' || s[k] == '<' || s[k] == '>'
            || s[k] == '"' || s[k] == '\''),
    ensures
        escaped(s) == s,
    decreases s.len(),
{
    if s.len() > 0 {
        let r = s.drop_last();
        assert forall|k: int| 0 <= k < r.len() implies !(#[trigger] r[k] == '&' || r[k] == '<' || r[k]
            == '>' || r[k] == '"' || r[k] == '\'') by {
            assert(r[k] == s[k]);
        }
        plain_text_escapes_to_itself(r);
        assert(s[s.len() - 1] == s.last());
        assert(r + seq![s.last()] =~= s);
    }
}

/// Whether `e` stands in `t` at `pos`.
pub open spec fn occurs_at(t: Seq<char>, pos: int, e: Seq<char>) -> bool {
    0 <= pos && pos + e.len() <= t.len() && t.subrange(pos, pos + e.len()) == e
}

/// The text that escaped text stands for: each of `&amp;`, `&lt;`, `&gt;`,
/// `&quot;` and `&#39;` read back as its character, from `pos` on.
pub open spec fn unescaped_from(t: Seq<char>, pos: int) -> Seq<char>
    decreases t.len() - pos,
{
    if pos < 0 || pos >= t.len() {
        seq![]
    } else if occurs_at(t, pos, escape_char('&')) {
        seq!['&'] + unescaped_from(t, pos + 5)
    } else if occurs_at(t, pos, escape_char('<')) {
        seq!['<'] + unescaped_from(t, pos + 4)
    } else if occurs_at(t, pos, escape_char('>')) {
        seq!['>'] + unescaped_from(t, pos + 4)
    } else if occurs_at(t, pos, escape_char('"')) {
        seq!['"'] + unescaped_from(t, pos + 6)
    } else if occurs_at(t, pos, escape_char('\'')) {
        seq!['\''] + unescaped_from(t, pos + 5)
    } else {
        seq![t[pos]] + unescaped_from(t, pos + 1)
    }
}

/// The text that escaped text stands for.
pub open spec fn unescaped(t: Seq<char>) -> Seq<char> {
    unescaped_from(t, 0)
}

proof fn lemma_unescape_shift(t: Seq<char>, k: int, pos: int)
    requires
        0 <= k <= pos,
        k <= t.len(),
    ensures
        unescaped_from(t, pos) == unescaped_from(t.skip(k), pos - k),
    decreases t.len() - pos,
{
    if pos < t.len() {
        let u = t.skip(k);
        assert(u[pos - k] == t[pos]);
        assert forall|e: Seq<char>| occurs_at(t, pos, e) == occurs_at(u, pos - k, e) by {
            if pos + e.len() <= t.len() {
                assert(u.subrange(pos - k, pos - k + e.len()) =~= t.subrange(pos, pos + e.len()));
            }
        }
        if occurs_at(t, pos, escape_char('&')) {
            lemma_unescape_shift(t, k, pos + 5);
        } else if occurs_at(t, pos, escape_char('<')) {
            lemma_unescape_shift(t, k, pos + 4);
        } else if occurs_at(t, pos, escape_char('>')) {
            lemma_unescape_shift(t, k, pos + 4);
        } else if occurs_at(t, pos, escape_char('"')) {
            lemma_unescape_shift(t, k, pos + 6);
        } else if occurs_at(t, pos, escape_char('\'')) {
            lemma_unescape_shift(t, k, pos + 5);
        } else {
            lemma_unescape_shift(t, k, pos + 1);
        }
    }
}

proof fn lemma_unescape_char(c: char, rest: Seq<char>)
    ensures
        unescaped(escape_char(c) + rest) == seq![c] + unescaped(rest),
{
    let t = escape_char(c) + rest;
    let n = escape_char(c).len() as int;
    assert(t.skip(n) =~= rest);
    lemma_unescape_shift(t, n, n);
    assert(t.subrange(0, n) =~= escape_char(c));
    assert(t[0] == escape_char(c)[0]);
    if n > 1 {
        assert(t[1] == escape_char(c)[1]);
    }
    if n > 2 {
        assert(t[2] == escape_char(c)[2]);
    }
    let amp = escape_char('&');
    let lt = escape_char('<');
    let gt = escape_char('>');
    let quot = escape_char('"');
    assert(occurs_at(t, 0, amp) ==> t[1] == 'a') by {
        if occurs_at(t, 0, amp) {
            assert(t.subrange(0, 5)[1] == t[1]);
        }
    }
    assert(occurs_at(t, 0, lt) ==> t[1] == 'l') by {
        if occurs_at(t, 0, lt) {
            assert(t.subrange(0, 4)[1] == t[1]);
        }
    }
    assert(occurs_at(t, 0, gt) ==> t[1] == 'g') by {
        if occurs_at(t, 0, gt) {
            assert(t.subrange(0, 4)[1] == t[1]);
        }
    }
    assert(occurs_at(t, 0, quot) ==> t[1] == 'q') by {
        if occurs_at(t, 0, quot) {
            assert(t.subrange(0, 6)[1] == t[1]);
        }
    }
    assert(occurs_at(t, 0, escape_char('\'')) ==> t[1] == '#') by {
        if occurs_at(t, 0, escape_char('\'')) {
            assert(t.subrange(0, 5)[1] == t[1]);
        }
    }
    assert(occurs_at(t, 0, amp) || occurs_at(t, 0, lt) || occurs_at(t, 0, gt) || occurs_at(t, 0, quot)
        || occurs_at(t, 0, escape_char('\'')) ==> t[0] == '&') by {
        if occurs_at(t, 0, amp) {
            assert(t.subrange(0, 5)[0] == t[0]);
        }
        if occurs_at(t, 0, lt) || occurs_at(t, 0, gt) {
            assert(t.subrange(0, 4)[0] == t[0]);
        }
        if occurs_at(t, 0, quot) {
            assert(t.subrange(0, 6)[0] == t[0]);
        }
        if occurs_at(t, 0, escape_char('\'')) {
            assert(t.subrange(0, 5)[0] == t[0]);
        }
    }
}

/// Reading the entities of escaped text back gives the text.
pub proof fn unescaping_undoes_escaping(s: Seq<char>)
    ensures
        unescaped(escaped(s)) == s,
    decreases s.len(),
{
    if s.len() > 0 {
        let rest = s.drop_first();
        lemma_escaped_append(seq![s[0]], rest);
        assert(seq![s[0]] + rest =~= s);
        lemma_escaped_single(s[0]);
        unescaping_undoes_escaping(rest);
        lemma_unescape_char(s[0], escaped(rest));
        assert(seq![s[0]] + rest =~= s);
    } else {
        assert(escaped(s) =~= seq![]);
    }
}

/// The entities escaping writes.
pub open spec fn is_entity(e: Seq<char>) -> bool {
    e == seq!['&', 'a', 'm', 'p', ';'] || e == seq!['&', 'l', 't', ';'] || e == seq!['&', 'g', 't', ';']
        || e == seq!['&', 'q', 'u', 'o', 't', ';'] || e == seq!['&', '#', '3', '9', ';']
}

/// Every `&` in escaped text begins one of the five entities.
pub proof fn escaped_ampersands_begin_entities(s: Seq<char>)
    ensures
        forall|i: int|
            0 <= i < escaped(s).len() && #[trigger] escaped(s)[i] == '&' ==> exists|n: int|
                4 <= n <= 6 && i + n <= escaped(s).len() && #[trigger] is_entity(escaped(s).subrange(i, i + n)),
    decreases s.len(),
{
    if s.len() > 0 {
        escaped_ampersands_begin_entities(s.drop_last());
        let e = escaped(s);
        let p = escaped(s.drop_last());
        let t = escape_char(s.last());
        assert(e == p + t);
        assert forall|i: int| 0 <= i < e.len() && #[trigger] e[i] == '&' implies exists|n: int|
            4 <= n <= 6 && i + n <= e.len() && #[trigger] is_entity(e.subrange(i, i + n)) by {
            if i < p.len() {
                assert(e[i] == p[i]);
                let n = choose|n: int| 4 <= n <= 6 && i + n <= p.len() && #[trigger] is_entity(p.subrange(i, i + n));
                assert(e.subrange(i, i + n) =~= p.subrange(i, i + n));
            } else {
                let c = s.last();
                let j = i - p.len();
                assert(e[i] == t[j]);
                assert(c == '&' || c == '<' || c == '>' || c == '"' || c == '\'');
                assert(j == 0);
                let n = t.len() as int;
                assert(e.subrange(i, i + n) =~= t);
                assert(is_entity(t));
            }
        }
    }
}

} // verus!
