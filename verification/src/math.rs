//! Rewriting of backslash math delimiters into the dollar delimiters that the
//! Markdown parser understands.
//!
//! `\[ .. \]` becomes `$$ .. $$` and `\( .. \)` becomes `$ .. $`. Fenced code
//! blocks and inline code spans are copied unchanged, so documents can still
//! show the delimiters literally.

use vstd::prelude::*;
use crate::chars::chars_of;


verus! {

/// Number of consecutive copies of `c` in `s` starting at `pos`.
pub open spec fn run_of(s: Seq<char>, pos: int, c: char) -> nat
    decreases s.len() - pos,
{
    if 0 <= pos < s.len() && s[pos] == c {
        1 + run_of(s, pos + 1, c)
    } else {
        0
    }
}

/// State of inline code spans after a run of `len` backticks: a run opens a
/// span when none is open, and closes the open span when it has the same
/// length as the opening run.
pub open spec fn toggle_code_span(open: Option<nat>, len: nat) -> Option<nat> {
    match open {
        Some(opening) => if opening == len {
            None
        } else {
            open
        },
        None => Some(len),
    }
}

/// Position of the first `\` + `close` at or after `pos` that lies outside
/// inline code spans, with `open` the code span open at `pos`.
pub open spec fn find_closing(s: Seq<char>, pos: int, close: char, open: Option<nat>) -> Option<
    int,
>
    decreases s.len() - pos,
{
    if pos < 0 || pos >= s.len() {
        None
    } else if s[pos] == '`' {
        let n = run_of(s, pos, '`');
        proof {
            lemma_run_of_bounds(s, pos, '`');
        }
        find_closing(s, pos + n, close, toggle_code_span(open, n))
    } else if open is None && pos + 1 < s.len() && s[pos] == '\\' && s[pos + 1] == close {
        Some(pos)
    } else {
        find_closing(s, pos + 1, close, open)
    }
}

/// The delimiter rewriting applied to a stretch of prose, scanning from
/// `pos` with `open` the code span open there and `out` the text produced so
/// far.
pub open spec fn latex_scan(s: Seq<char>, pos: int, open: Option<nat>, out: Seq<char>) -> Seq<
    char,
>
    decreases s.len() - pos,
{
    if pos < 0 || pos >= s.len() {
        out
    } else if s[pos] == '`' {
        let n = run_of(s, pos, '`');
        proof {
            lemma_run_of_bounds(s, pos, '`');
        }
        latex_scan(s, pos + n, toggle_code_span(open, n), out + s.subrange(pos, pos + n))
    } else if open is None && pos + 1 < s.len() && s[pos] == '\\' && s[pos + 1] == '['
        && find_closing(s, pos + 2, ']', None) is Some {
        let end = find_closing(s, pos + 2, ']', None)->0;
        proof {
            lemma_find_closing_bounds(s, pos + 2, ']', None);
        }
        latex_scan(s, end + 2, open, out + seq!['$', '$'] + s.subrange(pos + 2, end) + seq!['$', '$'])
    } else if open is None && pos + 1 < s.len() && s[pos] == '\\' && s[pos + 1] == '('
        && find_closing(s, pos + 2, ')', None) is Some {
        let end = find_closing(s, pos + 2, ')', None)->0;
        proof {
            lemma_find_closing_bounds(s, pos + 2, ')', None);
        }
        latex_scan(s, end + 2, open, out + seq!['$'] + s.subrange(pos + 2, end) + seq!['$'])
    } else {
        latex_scan(s, pos + 1, open, out.push(s[pos]))
    }
}

/// A stretch of prose with its backslash delimiters rewritten.
pub open spec fn latex_normalized(s: Seq<char>) -> Seq<char> {
    latex_scan(s, 0, None, seq![])
}

/// Number of spaces and tabs that begin `line` from `pos` on.
pub open spec fn blank_run(line: Seq<char>, pos: int) -> nat
    decreases line.len() - pos,
{
    if 0 <= pos < line.len() && (line[pos] == ' ' || line[pos] == '\t') {
        1 + blank_run(line, pos + 1)
    } else {
        0
    }
}

/// The fence that `line` opens or closes: its character (a backtick or a
/// tilde) and the length of its run, when the line, after leading spaces and
/// tabs, starts with at least three of them.
pub open spec fn fence_marker(line: Seq<char>) -> Option<(char, nat)> {
    let b = blank_run(line, 0) as int;
    if b < line.len() && (line[b] == '`' || line[b] == '~') && run_of(line, b, line[b]) >= 3 {
        Some((line[b], run_of(line, b, line[b])))
    } else {
        None
    }
}

/// Whether `marker` closes a fence opened with `c` repeated `len` times.
pub open spec fn closes_fence(marker: Option<(char, nat)>, c: char, len: nat) -> bool {
    marker matches Some((candidate, candidate_len)) && candidate == c && candidate_len >= len
}

/// Index just past the line that starts at `pos`: past its newline, or the
/// end of the text.
pub open spec fn line_end(s: Seq<char>, pos: int) -> int
    decreases s.len() - pos,
{
    if pos < 0 || pos >= s.len() {
        s.len() as int
    } else if s[pos] == '\n' {
        pos + 1
    } else {
        line_end(s, pos + 1)
    }
}

/// The document-level rewriting from line start `pos`: `fence` is the fence
/// open there, `prose` the prose read since the last fence and not yet
/// written, `out` the text produced so far.
pub open spec fn math_doc(
    s: Seq<char>,
    pos: int,
    fence: Option<(char, nat)>,
    prose: Seq<char>,
    out: Seq<char>,
) -> Seq<char>
    decreases s.len() - pos,
{
    if pos < 0 || pos >= s.len() {
        out + latex_normalized(prose)
    } else {
        let e = line_end(s, pos);
        proof {
            lemma_line_end_bounds(s, pos);
        }
        let line = s.subrange(pos, e);
        let marker = fence_marker(line);
        match fence {
            Some((c, len)) => math_doc(
                s,
                e,
                if closes_fence(marker, c, len) {
                    None
                } else {
                    fence
                },
                prose,
                out + line,
            ),
            None => if marker is Some {
                math_doc(s, e, marker, seq![], out + latex_normalized(prose) + line)
            } else {
                math_doc(s, e, None, prose + line, out)
            },
        }
    }
}

/// The whole rewriting of a Markdown document.
pub open spec fn math_normalized(s: Seq<char>) -> Seq<char> {
    math_doc(s, 0, None, seq![], seq![])
}

pub proof fn lemma_run_of_bounds(s: Seq<char>, pos: int, c: char)
    ensures
        0 <= pos ==> pos + run_of(s, pos, c) <= s.len() || run_of(s, pos, c) == 0,
        0 <= pos < s.len() && s[pos] == c ==> run_of(s, pos, c) >= 1,
        forall|i: int| pos <= i < pos + run_of(s, pos, c) ==> #[trigger] s[i] == c,
    decreases s.len() - pos,
{
    if 0 <= pos < s.len() && s[pos] == c {
        lemma_run_of_bounds(s, pos + 1, c);
    }
}

pub proof fn lemma_find_closing_bounds(s: Seq<char>, pos: int, close: char, open: Option<nat>)
    ensures
        find_closing(s, pos, close, open) matches Some(e) ==> pos <= e && e + 2 <= s.len() && s[e]
            == '\\' && s[e + 1] == close,
    decreases s.len() - pos,
{
    if pos < 0 || pos >= s.len() {
    } else if s[pos] == '`' {
        let n = run_of(s, pos, '`');
        lemma_run_of_bounds(s, pos, '`');
        lemma_find_closing_bounds(s, pos + n, close, toggle_code_span(open, n));
    } else if open is None && pos + 1 < s.len() && s[pos] == '\\' && s[pos + 1] == close {
    } else {
        lemma_find_closing_bounds(s, pos + 1, close, open);
    }
}

pub proof fn lemma_line_end_bounds(s: Seq<char>, pos: int)
    ensures
        0 <= pos <= s.len() ==> pos <= line_end(s, pos) <= s.len(),
        0 <= pos < s.len() ==> pos < line_end(s, pos),
    decreases s.len() - pos,
{
    if 0 <= pos < s.len() && s[pos] != '\n' {
        lemma_line_end_bounds(s, pos + 1);
    }
}

/// Counts the copies of `c` that follow one another in `s` from `pos` on.
fn run_length(s: &Vec<char>, pos: usize, c: char) -> (n: usize)
    requires
        pos <= s.len(),
    ensures
        n == run_of(s@, pos as int, c),
        pos + n <= s.len(),
{
    let mut i = pos;
    while i < s.len() && s[i] == c
        invariant
            pos <= i <= s.len(),
            run_of(s@, pos as int, c) == (i - pos) + run_of(s@, i as int, c),
        decreases s.len() - i,
    {
        i = i + 1;
    }
    i - pos
}

/// Finds the closing `\` + `close` of a delimiter opened before `position`,
/// skipping inline code spans.
pub fn find_latex_delimiter(input: &Vec<char>, start: usize, close: char) -> (res: Option<usize>)
    requires
        start <= input.len(),
    ensures
        res matches Some(e) ==> find_closing(input@, start as int, close, None) == Some(e as int),
        res is None ==> find_closing(input@, start as int, close, None) is None,
{
    let mut position = start;
    let mut open: Option<usize> = None;
    while position < input.len()
        invariant
            position <= input.len(),
            find_closing(input@, start as int, close, None) == find_closing(
                input@,
                position as int,
                close,
                match open {
                    Some(n) => Some(n as nat),
                    None => None,
                },
            ),
        decreases input.len() - position,
    {
        if input[position] == '`' {
            let length = run_length(input, position, '`');
            proof {
                lemma_run_of_bounds(input@, position as int, '`');
            }
            position = position + length;
            open = match open {
                Some(opening) => if opening == length {
                    None
                } else {
                    Some(opening)
                },
                None => Some(length),
            };
        } else if open.is_none() && position + 1 < input.len() && input[position] == '\\'
            && input[position + 1] == close {
            return Some(position);
        } else {
            position = position + 1;
        }
    }
    None
}

/// Appends `text[from..to]` to `out`.
fn push_range(out: &mut String, text: &Vec<char>, from: usize, to: usize)
    requires
        from <= to <= text.len(),
    ensures
        final(out)@ == old(out)@ + text@.subrange(from as int, to as int),
{
    let mut i = from;
    while i < to
        invariant
            from <= i <= to <= text.len(),
            out@ == old(out)@ + text@.subrange(from as int, i as int),
        decreases to - i,
    {
        out.push(text[i]);
        i = i + 1;
        assert(text@.subrange(from as int, i as int) == text@.subrange(from as int, i - 1).push(
            text@[i - 1],
        ));
    }
}

/// Appends `input` to `output` with `\[ .. \]` rewritten to `$$ .. $$` and
/// `\( .. \)` to `$ .. $`, outside inline code spans.
pub fn normalize_latex_delimiters(input: &Vec<char>, output: &mut String)
    ensures
        final(output)@ == old(output)@ + latex_normalized(input@),
{
    let mut position: usize = 0;
    let mut open: Option<usize> = None;
    let ghost mut acc: Seq<char> = seq![];
    while position < input.len()
        invariant
            position <= input.len(),
            output@ == old(output)@ + acc,
            latex_normalized(input@) == latex_scan(
                input@,
                position as int,
                match open {
                    Some(n) => Some(n as nat),
                    None => None,
                },
                acc,
            ),
        decreases input.len() - position,
    {
        let ghost g_open: Option<nat> = match open {
            Some(n) => Some(n as nat),
            None => None,
        };
        if input[position] == '`' {
            let length = run_length(input, position, '`');
            proof {
                lemma_run_of_bounds(input@, position as int, '`');
            }
            push_range(output, input, position, position + length);
            proof {
                acc = acc + input@.subrange(position as int, position + length);
            }
            position = position + length;
            open = match open {
                Some(opening) => if opening == length {
                    None
                } else {
                    Some(opening)
                },
                None => Some(length),
            };
            continue ;
        }
        if open.is_none() && position + 1 < input.len() && input[position] == '\\' && input[position
            + 1] == '[' {
            if let Some(end) = find_latex_delimiter(input, position + 2, ']') {
                proof {
                    lemma_find_closing_bounds(input@, position + 2, ']', None);
                }
                output.push('$');
                output.push('$');
                push_range(output, input, position + 2, end);
                output.push('$');
                output.push('$');
                proof {
                    acc = acc + seq!['$', '$'] + input@.subrange(position + 2, end as int) + seq![
                        '$',
                        '$',
                    ];
                    assert(output@ == old(output)@ + acc);
                }
                position = end + 2;
                continue ;
            }
        }
        if open.is_none() && position + 1 < input.len() && input[position] == '\\' && input[position
            + 1] == '(' {
            if let Some(end) = find_latex_delimiter(input, position + 2, ')') {
                proof {
                    lemma_find_closing_bounds(input@, position + 2, ')', None);
                }
                output.push('$');
                push_range(output, input, position + 2, end);
                output.push('$');
                proof {
                    acc = acc + seq!['$'] + input@.subrange(position + 2, end as int) + seq!['$'];
                    assert(output@ == old(output)@ + acc);
                }
                position = end + 2;
                continue ;
            }
        }
        output.push(input[position]);
        proof {
            acc = acc.push(input@[position as int]);
        }
        position = position + 1;
    }
}

/// Appends `text[from..to]` to `out`.
fn extend_range(out: &mut Vec<char>, text: &Vec<char>, from: usize, to: usize)
    requires
        from <= to <= text.len(),
    ensures
        final(out)@ == old(out)@ + text@.subrange(from as int, to as int),
{
    let mut i = from;
    while i < to
        invariant
            from <= i <= to <= text.len(),
            out@ == old(out)@ + text@.subrange(from as int, i as int),
        decreases to - i,
    {
        out.push(text[i]);
        i = i + 1;
        assert(text@.subrange(from as int, i as int) == text@.subrange(from as int, i - 1).push(
            text@[i - 1],
        ));
    }
}

/// The fence a line opens or closes: the fence character and the length of
/// its run, when the line starts, after spaces and tabs, with at least three
/// backticks or three tildes.
pub fn code_fence_marker(line: &Vec<char>) -> (res: Option<(char, usize)>)
    ensures
        match res {
            Some((c, n)) => fence_marker(line@) == Some((c, n as nat)),
            None => fence_marker(line@) is None,
        },
{
    let mut b: usize = 0;
    while b < line.len() && (line[b] == ' ' || line[b] == '\t')
        invariant
            b <= line.len(),
            blank_run(line@, 0) == b + blank_run(line@, b as int),
        decreases line.len() - b,
    {
        b = b + 1;
    }
    if b < line.len() && (line[b] == '`' || line[b] == '~') {
        let marker = line[b];
        let length = run_length(line, b, marker);
        if length >= 3 {
            return Some((marker, length));
        }
    }
    None
}

/// Rewrites `\[ .. \]` to `$$ .. $$` and `\( .. \)` to `$ .. $` in the prose
/// of a Markdown document, leaving fenced code blocks and inline code spans
/// unchanged.
pub fn normalize_math_delimiters(markdown: &str) -> (output: String)
    ensures
        output@ == math_normalized(markdown@),
{
    let s = chars_of(markdown);
    let mut output = String::new();
    let mut prose: Vec<char> = Vec::new();
    let mut fence: Option<(char, usize)> = None;
    let mut pos: usize = 0;
    while pos < s.len()
        invariant
            pos <= s.len(),
            s@ == markdown@,
            math_normalized(s@) == math_doc(
                s@,
                pos as int,
                match fence {
                    Some((c, n)) => Some((c, n as nat)),
                    None => None,
                },
                prose@,
                output@,
            ),
        decreases s.len() - pos,
    {
        let mut e = pos;
        while e < s.len() && s[e] != '\n'
            invariant
                pos <= e <= s.len(),
                line_end(s@, pos as int) == line_end(s@, e as int),
            decreases s.len() - e,
        {
            e = e + 1;
        }
        if e < s.len() {
            e = e + 1;
        }
        proof {
            lemma_line_end_bounds(s@, pos as int);
        }
        let mut line: Vec<char> = Vec::new();
        extend_range(&mut line, &s, pos, e);
        let marker = code_fence_marker(&line);
        match fence {
            Some((c, n)) => {
                push_range(&mut output, &s, pos, e);
                if let Some((c2, n2)) = marker {
                    if c2 == c && n2 >= n {
                        fence = None;
                    }
                }
            },
            None => {
                if marker.is_some() {
                    normalize_latex_delimiters(&prose, &mut output);
                    prose.clear();
                    push_range(&mut output, &s, pos, e);
                    fence = marker;
                } else {
                    extend_range(&mut prose, &s, pos, e);
                }
            },
        }
        pos = e;
    }
    normalize_latex_delimiters(&prose, &mut output);
    output
}

/// Whether no backslash in `s` is followed by `(` or `[`.
pub open spec fn no_open_delimiters(s: Seq<char>) -> bool {
    forall|k: int| 0 <= k && k + 1 < s.len() && #[trigger] s[k] == '\\' ==> s[k + 1] != '(' && s[k + 1]
        != '['
}

proof fn lemma_latex_scan_plain(s: Seq<char>, pos: int, open: Option<nat>, out: Seq<char>)
    requires
        0 <= pos <= s.len(),
        no_open_delimiters(s),
    ensures
        latex_scan(s, pos, open, out) == out + s.skip(pos),
    decreases s.len() - pos,
{
    if pos >= s.len() {
        assert(out + s.skip(pos) =~= out);
    } else if s[pos] == '`' {
        let n = run_of(s, pos, '`');
        lemma_run_of_bounds(s, pos, '`');
        lemma_latex_scan_plain(s, pos + n, toggle_code_span(open, n), out + s.subrange(pos, pos + n));
        assert(out + s.subrange(pos, pos + n) + s.skip(pos + n) =~= out + s.skip(pos));
    } else {
        if s[pos] == '\\' && pos + 1 < s.len() {
            assert(s[pos + 1] != '(' && s[pos + 1] != '[');
        }
        lemma_latex_scan_plain(s, pos + 1, open, out.push(s[pos]));
        assert(out.push(s[pos]) + s.skip(pos + 1) =~= out + s.skip(pos));
    }
}

proof fn lemma_plain_subrange(s: Seq<char>, i: int, j: int)
    requires
        0 <= i <= j <= s.len(),
        no_open_delimiters(s),
    ensures
        no_open_delimiters(s.subrange(i, j)),
{
    let t = s.subrange(i, j);
    assert forall|k: int| 0 <= k && k + 1 < t.len() && #[trigger] t[k] == '\\' implies t[k + 1] != '('
        && t[k + 1] != '[' by {
        assert(t[k] == s[i + k]);
        assert(t[k + 1] == s[i + k + 1]);
    }
}

proof fn lemma_math_doc_plain(
    s: Seq<char>,
    pos: int,
    fence: Option<(char, nat)>,
    prose: Seq<char>,
    out: Seq<char>,
)
    requires
        0 <= pos <= s.len(),
        no_open_delimiters(s),
        prose.len() <= pos,
        prose == s.subrange(pos - prose.len(), pos),
        fence is Some ==> prose.len() == 0,
    ensures
        math_doc(s, pos, fence, prose, out) == out + prose + s.skip(pos),
    decreases s.len() - pos,
{
    lemma_plain_subrange(s, pos - prose.len(), pos);
    if pos >= s.len() {
        lemma_latex_scan_plain(prose, 0, None, seq![]);
        assert(seq![] + prose.skip(0) =~= prose);
        assert(out + prose + s.skip(pos) =~= out + prose);
    } else {
        let e = line_end(s, pos);
        lemma_line_end_bounds(s, pos);
        let line = s.subrange(pos, e);
        let marker = fence_marker(line);
        match fence {
            Some((c, len)) => {
                let next = if closes_fence(marker, c, len) {
                    None
                } else {
                    fence
                };
                assert(prose =~= s.subrange(e - 0, e));
                lemma_math_doc_plain(s, e, next, prose, out + line);
                assert(out + line + prose + s.skip(e) =~= out + prose + s.skip(pos));
            },
            None => {
                if marker is Some {
                    lemma_latex_scan_plain(prose, 0, None, seq![]);
                    assert(seq![] + prose.skip(0) =~= prose);
                    assert(Seq::<char>::empty() =~= s.subrange(e - 0, e));
                    lemma_math_doc_plain(s, e, marker, seq![], out + prose + line);
                    assert(out + prose + line + seq![] + s.skip(e) =~= out + prose + s.skip(pos));
                } else {
                    let p2 = prose + line;
                    assert(p2 =~= s.subrange(e - p2.len(), e));
                    lemma_math_doc_plain(s, e, None, p2, out);
                    assert(out + p2 + s.skip(e) =~= out + prose + s.skip(pos));
                }
            },
        }
    }
}

/// Only `\(` and `\[` are ever rewritten: a document in which no backslash
/// is followed by `(` or `[` comes out unchanged.
pub proof fn text_without_open_delimiters_is_unchanged(s: Seq<char>)
    requires
        no_open_delimiters(s),
    ensures
        math_normalized(s) == s,
{
    assert(Seq::<char>::empty() =~= s.subrange(0, 0));
    lemma_math_doc_plain(s, 0, None, seq![], seq![]);
    assert(Seq::<char>::empty() + Seq::<char>::empty() + s.skip(0) =~= s);
}

/// Only `\(` and `\[` are ever rewritten in prose too.
pub proof fn prose_without_open_delimiters_is_unchanged(s: Seq<char>)
    requires
        no_open_delimiters(s),
    ensures
        latex_normalized(s) == s,
{
    lemma_latex_scan_plain(s, 0, None, seq![]);
    assert(Seq::<char>::empty() + s.skip(0) =~= s);
}

/// The inline code span open when a scan that starts at `pos` with `open`
/// reaches `target`: `None` when the scan steps over `target` inside a run
/// of backticks, or `target` lies outside the text and before `pos`.
pub open spec fn span_state_at(s: Seq<char>, pos: int, open: Option<nat>, target: int) -> Option<
    Option<nat>,
>
    decreases s.len() - pos,
{
    if pos == target {
        Some(open)
    } else if pos < 0 || pos > target || pos >= s.len() {
        None
    } else if s[pos] == '`' {
        let n = run_of(s, pos, '`');
        proof {
            lemma_run_of_bounds(s, pos, '`');
        }
        span_state_at(s, pos + n, toggle_code_span(open, n), target)
    } else {
        span_state_at(s, pos + 1, open, target)
    }
}

/// Whether a closing `\` + `close` stands at `q`, outside inline code spans,
/// for a scan that starts at `pos` with `open`.
pub open spec fn closing_at(s: Seq<char>, pos: int, open: Option<nat>, q: int, close: char) -> bool {
    0 <= q && q + 1 < s.len() && s[q] == '\\' && s[q + 1] == close && span_state_at(s, pos, open, q)
        == Some(Option::<nat>::None)
}

proof fn lemma_find_closing_least(s: Seq<char>, pos: int, close: char, open: Option<nat>)
    requires
        0 <= pos,
    ensures
        find_closing(s, pos, close, open) matches Some(p) ==> closing_at(s, pos, open, p, close)
            && forall|q: int| pos <= q < p ==> !#[trigger] closing_at(s, pos, open, q, close),
        find_closing(s, pos, close, open) is None ==> forall|q: int|
            pos <= q ==> !#[trigger] closing_at(s, pos, open, q, close),
    decreases s.len() - pos,
{
    if pos >= s.len() {
    } else if s[pos] == '`' {
        let n = run_of(s, pos, '`');
        lemma_run_of_bounds(s, pos, '`');
        let t = toggle_code_span(open, n);
        lemma_find_closing_least(s, pos + n, close, t);
        assert forall|q: int| pos <= q && #[trigger] closing_at(s, pos, open, q, close) implies q >= pos
            + n && closing_at(s, pos + n, t, q, close) by {
            if q == pos {
                assert(s[q] == '`');
            } else if q < pos + n {
                assert(span_state_at(s, pos, open, q) == span_state_at(s, pos + n, t, q));
            }
        }
        assert forall|q: int| pos + n <= q implies #[trigger] closing_at(s, pos, open, q, close)
            == closing_at(s, pos + n, t, q, close) by {
            assert(span_state_at(s, pos, open, q) == span_state_at(s, pos + n, t, q));
        }
    } else if open is None && pos + 1 < s.len() && s[pos] == '\\' && s[pos + 1] == close {
    } else {
        lemma_find_closing_least(s, pos + 1, close, open);
        assert(!closing_at(s, pos, open, pos, close));
        assert forall|q: int| pos + 1 <= q implies #[trigger] closing_at(s, pos, open, q, close)
            == closing_at(s, pos + 1, open, q, close) by {
            assert(span_state_at(s, pos, open, q) == span_state_at(s, pos + 1, open, q));
        }
    }
}

/// The closing delimiter found from `start` is the first `\` + `close` at or
/// after `start` that lies outside inline code spans, and there is none
/// when nothing is found.
pub proof fn closing_delimiter_is_the_first_outside_code(s: Seq<char>, start: int, close: char, p: int)
    requires
        0 <= start,
    ensures
        find_closing(s, start, close, None) == Some(p) <==> (closing_at(s, start, None, p, close)
            && forall|q: int| start <= q < p ==> !#[trigger] closing_at(s, start, None, q, close)),
        find_closing(s, start, close, None) is None <==> forall|q: int|
            start <= q ==> !#[trigger] closing_at(s, start, None, q, close),
{
    lemma_find_closing_least(s, start, close, None);
    lemma_find_closing_bounds(s, start, close, None);
    match find_closing(s, start, close, None) {
        Some(f) => {
            if closing_at(s, start, None, p, close) && forall|q: int|
                start <= q < p ==> !#[trigger] closing_at(s, start, None, q, close) {
                if f < p {
                    assert(closing_at(s, start, None, f, close));
                } else if p < f {
                    assert(!closing_at(s, start, None, p, close));
                }
            }
            assert(!(forall|q: int| start <= q ==> !#[trigger] closing_at(s, start, None, q, close))) by {
                assert(closing_at(s, start, None, f, close));
            }
        },
        None => {
        },
    }
}

/// Index just past the line that closes the fence `(c, len)`, scanning the
/// lines from line start `pos`; the end of the text when none closes it.
pub open spec fn fence_close_end(s: Seq<char>, pos: int, c: char, len: nat) -> int
    decreases s.len() - pos,
{
    if pos < 0 || pos >= s.len() {
        s.len() as int
    } else {
        let e = line_end(s, pos);
        proof {
            lemma_line_end_bounds(s, pos);
        }
        if closes_fence(fence_marker(s.subrange(pos, e)), c, len) {
            e
        } else {
            fence_close_end(s, e, c, len)
        }
    }
}

proof fn lemma_fence_close_end_bounds(s: Seq<char>, pos: int, c: char, len: nat)
    requires
        0 <= pos <= s.len(),
    ensures
        pos <= fence_close_end(s, pos, c, len) <= s.len(),
    decreases s.len() - pos,
{
    if pos < s.len() {
        lemma_line_end_bounds(s, pos);
        let e = line_end(s, pos);
        if !closes_fence(fence_marker(s.subrange(pos, e)), c, len) {
            lemma_fence_close_end_bounds(s, e, c, len);
        }
    }
}

proof fn lemma_math_doc_out(
    s: Seq<char>,
    pos: int,
    fence: Option<(char, nat)>,
    prose: Seq<char>,
    out: Seq<char>,
)
    ensures
        math_doc(s, pos, fence, prose, out) == out + math_doc(s, pos, fence, prose, seq![]),
    decreases s.len() - pos,
{
    if pos < 0 || pos >= s.len() {
        assert(seq![] + latex_normalized(prose) =~= latex_normalized(prose));
    } else {
        let e = line_end(s, pos);
        lemma_line_end_bounds(s, pos);
        let line = s.subrange(pos, e);
        let marker = fence_marker(line);
        match fence {
            Some((c, len)) => {
                let next = if closes_fence(marker, c, len) {
                    None
                } else {
                    fence
                };
                lemma_math_doc_out(s, e, next, prose, out + line);
                lemma_math_doc_out(s, e, next, prose, seq![] + line);
                assert(out + line + math_doc(s, e, next, prose, seq![]) =~= out + ((seq![] + line)
                    + math_doc(s, e, next, prose, seq![])));
            },
            None => {
                if marker is Some {
                    let x = latex_normalized(prose) + line;
                    lemma_math_doc_out(s, e, marker, seq![], out + latex_normalized(prose) + line);
                    lemma_math_doc_out(s, e, marker, seq![], seq![] + latex_normalized(prose) + line);
                    assert(out + latex_normalized(prose) + line + math_doc(s, e, marker, seq![], seq![])
                        =~= out + ((seq![] + latex_normalized(prose) + line) + math_doc(
                        s,
                        e,
                        marker,
                        seq![],
                        seq![],
                    )));
                } else {
                    lemma_math_doc_out(s, e, None, prose + line, out);
                }
            },
        }
    }
}

proof fn lemma_line_end_shift(s: Seq<char>, k: int, pos: int)
    requires
        0 <= k <= pos,
        k <= s.len(),
    ensures
        line_end(s, pos) == line_end(s.skip(k), pos - k) + k,
    decreases s.len() - pos,
{
    if pos < s.len() {
        assert(s.skip(k)[pos - k] == s[pos]);
        if s[pos] != '\n' {
            lemma_line_end_shift(s, k, pos + 1);
        }
    }
}

proof fn lemma_math_doc_shift(
    s: Seq<char>,
    k: int,
    pos: int,
    fence: Option<(char, nat)>,
    prose: Seq<char>,
)
    requires
        0 <= k <= pos,
        k <= s.len(),
    ensures
        math_doc(s, pos, fence, prose, seq![]) == math_doc(s.skip(k), pos - k, fence, prose, seq![]),
    decreases s.len() - pos,
{
    let t = s.skip(k);
    if pos < s.len() {
        let e = line_end(s, pos);
        lemma_line_end_bounds(s, pos);
        lemma_line_end_shift(s, k, pos);
        let line = s.subrange(pos, e);
        assert(t.subrange(pos - k, e - k) =~= line);
        let marker = fence_marker(line);
        match fence {
            Some((c, len)) => {
                let next = if closes_fence(marker, c, len) {
                    None
                } else {
                    fence
                };
                lemma_math_doc_out(s, e, next, prose, seq![] + line);
                lemma_math_doc_out(t, e - k, next, prose, seq![] + line);
                lemma_math_doc_shift(s, k, e, next, prose);
            },
            None => {
                if marker is Some {
                    let x = seq![] + latex_normalized(prose) + line;
                    lemma_math_doc_out(s, e, marker, seq![], x);
                    lemma_math_doc_out(t, e - k, marker, seq![], x);
                    lemma_math_doc_shift(s, k, e, marker, seq![]);
                } else {
                    lemma_math_doc_shift(s, k, e, None, prose + line);
                }
            },
        }
    }
}

proof fn lemma_math_doc_fenced(s: Seq<char>, pos: int, c: char, len: nat, out: Seq<char>)
    requires
        0 <= pos <= s.len(),
    ensures
        math_doc(s, pos, Some((c, len)), seq![], out) == math_doc(
            s,
            fence_close_end(s, pos, c, len),
            None,
            seq![],
            out + s.subrange(pos, fence_close_end(s, pos, c, len)),
        ),
    decreases s.len() - pos,
{
    if pos >= s.len() {
        assert(out + s.subrange(pos, s.len() as int) =~= out);
    } else {
        let e = line_end(s, pos);
        lemma_line_end_bounds(s, pos);
        let line = s.subrange(pos, e);
        if !closes_fence(fence_marker(line), c, len) {
            lemma_math_doc_fenced(s, e, c, len, out + line);
            let f = fence_close_end(s, e, c, len);
            lemma_fence_close_end_bounds(s, e, c, len);
            assert(out + line + s.subrange(e, f) =~= out + s.subrange(pos, f));
        }
    }
}

/// A fenced code block at the start of a document is copied as it stands,
/// up to and including its closing fence line (or to the end when nothing
/// closes it), and the rest is rewritten as a document of its own.
pub proof fn fenced_code_is_copied_unchanged(s: Seq<char>)
    requires
        fence_marker(s.subrange(0, line_end(s, 0))) is Some,
    ensures
        ({
            let (c, len) = fence_marker(s.subrange(0, line_end(s, 0)))->0;
            let close = fence_close_end(s, line_end(s, 0), c, len);
            math_normalized(s) == s.take(close) + math_normalized(s.skip(close))
        }),
{
    let e = line_end(s, 0);
    lemma_line_end_bounds(s, 0);
    let line = s.subrange(0, e);
    let (c, len) = fence_marker(line)->0;
    assert(s.len() > 0) by {
        if s.len() == 0 {
            assert(line.len() == 0);
        }
    }
    assert(latex_normalized(seq![]) == Seq::<char>::empty());
    assert(Seq::<char>::empty() + latex_normalized(seq![]) + line =~= line);
    lemma_math_doc_fenced(s, e, c, len, line);
    let close = fence_close_end(s, e, c, len);
    lemma_fence_close_end_bounds(s, e, c, len);
    assert(line + s.subrange(e, close) =~= s.take(close));
    lemma_math_doc_out(s, close, None, seq![], s.take(close));
    lemma_math_doc_shift(s, close, close, None, seq![]);
}

/// Whether `p` is made of whole lines (it is empty or ends with a newline)
/// none of which opens or closes a code fence.
pub open spec fn fence_free_lines(p: Seq<char>) -> bool {
    &&& (p.len() == 0 || p.last() == '\n')
    &&& forall|pos: int|
        0 <= pos < p.len() && (pos == 0 || p[pos - 1] == '\n') ==> #[trigger] fence_marker(
            p.subrange(pos, line_end(p, pos)),
        ) is None
}

proof fn lemma_line_end_within(p: Seq<char>, f: Seq<char>, pos: int)
    requires
        p.len() > 0,
        p.last() == '\n',
        0 <= pos < p.len(),
    ensures
        line_end(p + f, pos) == line_end(p, pos),
        pos < line_end(p, pos) <= p.len(),
        p[line_end(p, pos) - 1] == '\n',
    decreases p.len() - pos,
{
    assert((p + f)[pos] == p[pos]);
    if p[pos] != '\n' {
        assert(pos + 1 < p.len());
        lemma_line_end_within(p, f, pos + 1);
    }
}

proof fn lemma_prose_lines(p: Seq<char>, f: Seq<char>, pos: int)
    requires
        fence_free_lines(p),
        0 <= pos <= p.len(),
        pos == 0 || p[pos - 1] == '\n',
    ensures
        math_doc(p + f, pos, None, p.take(pos), seq![]) == math_doc(p + f, p.len() as int, None, p, seq![]),
    decreases p.len() - pos,
{
    let s = p + f;
    if pos < p.len() {
        lemma_line_end_within(p, f, pos);
        let e = line_end(p, pos);
        assert(s.subrange(pos, e) =~= p.subrange(pos, e));
        assert(fence_marker(p.subrange(pos, line_end(p, pos))) is None);
        assert(p.take(pos) + s.subrange(pos, e) =~= p.take(e));
        lemma_prose_lines(p, f, e);
    } else {
        assert(p.take(pos) =~= p);
    }
}

/// Prose is rewritten the same way whatever follows it: a document made of
/// prose lines `p` without fences, followed by text `f` that starts with a
/// fence line, comes out as `p` with its delimiters rewritten followed by
/// `f` rewritten on its own.
pub proof fn prose_before_a_fence_is_rewritten(p: Seq<char>, f: Seq<char>)
    requires
        fence_free_lines(p),
        fence_marker(f.subrange(0, line_end(f, 0))) is Some,
    ensures
        math_normalized(p + f) == latex_normalized(p) + math_normalized(f),
{
    let s = p + f;
    let n = p.len() as int;
    assert(p.take(0) =~= Seq::<char>::empty());
    lemma_prose_lines(p, f, 0);
    assert(f.len() > 0) by {
        if f.len() == 0 {
            assert(f.subrange(0, line_end(f, 0)).len() == 0);
        }
    }
    assert(s.skip(n) =~= f);
    lemma_line_end_shift(s, n, n);
    let e = line_end(s, n);
    let ef = line_end(f, 0);
    lemma_line_end_bounds(f, 0);
    assert(e == ef + n);
    let line = s.subrange(n, e);
    assert(line =~= f.subrange(0, ef));
    let marker = fence_marker(line);
    assert(latex_normalized(seq![]) == Seq::<char>::empty());
    lemma_math_doc_out(s, e, marker, seq![], seq![] + latex_normalized(p) + line);
    lemma_math_doc_shift(s, n, e, marker, seq![]);
    lemma_math_doc_out(f, ef, marker, seq![], seq![] + latex_normalized(seq![]) + line);
    assert(seq![] + latex_normalized(p) + line + math_doc(f, ef, marker, seq![], seq![]) =~= latex_normalized(
        p,
    ) + ((seq![] + latex_normalized(seq![]) + line) + math_doc(f, ef, marker, seq![], seq![])));
}

/// `\(` .. `\)` around text without backslashes and backticks becomes `$`
/// .. `$`, and `\[` .. `\]` becomes `$$` .. `$$`.
pub proof fn backslash_delimiters_become_dollars(x: Seq<char>)
    requires
        forall|k: int| 0 <= k < x.len() ==> #[trigger] x[k] != '\\' && x[k] != '`',
    ensures
        latex_normalized(seq!['\\', '('] + x + seq!['\\', ')']) == seq!['$'] + x + seq!['$'],
        latex_normalized(seq!['\\', '['] + x + seq!['\\', ']']) == seq!['$', '$'] + x + seq!['$', '$'],
{
    lemma_delimited(x, '(', ')');
    lemma_delimited(x, '[', ']');
}

proof fn lemma_find_plain(s: Seq<char>, pos: int, end: int, close: char)
    requires
        0 <= pos <= end,
        end + 1 < s.len(),
        s[end] == '\\',
        s[end + 1] == close,
        forall|k: int| pos <= k < end ==> #[trigger] s[k] != '\\' && s[k] != '`',
    ensures
        find_closing(s, pos, close, None) == Some(end),
    decreases end - pos,
{
    if pos < end {
        lemma_find_plain(s, pos + 1, end, close);
    }
}

proof fn lemma_delimited(x: Seq<char>, open: char, close: char)
    requires
        forall|k: int| 0 <= k < x.len() ==> #[trigger] x[k] != '\\' && x[k] != '`',
        (open == '(' && close == ')') || (open == '[' && close == ']'),
    ensures
        open == '(' ==> latex_normalized(seq!['\\', open] + x + seq!['\\', close]) == seq!['$'] + x
            + seq!['$'],
        open == '[' ==> latex_normalized(seq!['\\', open] + x + seq!['\\', close]) == seq!['$', '$']
            + x + seq!['$', '$'],
{
    let s = seq!['\\', open] + x + seq!['\\', close];
    let end: int = x.len() as int + 2;
    assert(s[0] == '\\' && s[1] == open);
    assert(s[end] == '\\' && s[end + 1] == close);
    assert forall|k: int| 2 <= k < end implies #[trigger] s[k] != '\\' && s[k] != '`' by {
        assert(s[k] == x[k - 2]);
    }
    lemma_find_plain(s, 2, end, close);
    assert(s.subrange(2, end) =~= x);
    let out = if open == '(' {
        seq!['$'] + x + seq!['$']
    } else {
        seq!['$', '$'] + x + seq!['$', '$']
    };
    assert(latex_scan(s, end + 2, None, out) == out);
    assert(seq![] + seq!['$'] + x + seq!['$'] =~= seq!['$'] + x + seq!['$']);
    assert(seq![] + seq!['$', '$'] + x + seq!['$', '$'] =~= seq!['$', '$'] + x + seq!['$', '$']);
}

} // verus!
