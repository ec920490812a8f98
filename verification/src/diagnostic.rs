//! The text of a syntax-error report: the message, the file, line and column,
//! the offending source line, and a caret under the column.
use vstd::prelude::*;
use crate::lexer::{col_at, last_newline, line_at, newlines};
use crate::parser::ParseError;
use crate::text::{
    chars_of, decimal, push_decimal, push_range, push_repeated, push_str, repeat_char,
};

verus! {

/// The index of the first newline at or after `i`, or the length of the text.
pub open spec fn newline_from(text: Seq<char>, i: int) -> int
    decreases text.len() - i,
{
    if 0 <= i < text.len() && text[i] != '\n' {
        newline_from(text, i + 1)
    } else {
        i
    }
}

/// A line without the `\r` of a `\r\n` ending.
pub open spec fn strip_cr(line: Seq<char>, ended: bool) -> Seq<char> {
    if ended && line.len() > 0 && line.last() == '\r' {
        line.drop_last()
    } else {
        line
    }
}

/// The lines of `text` from index `i`, as `str::lines` gives them: split at
/// `\n` or `\r\n`, without the terminators, and no empty line after a final
/// line ending.
pub open spec fn lines_from(text: Seq<char>, i: int) -> Seq<Seq<char>>
    decreases text.len() - i,
{
    if i < 0 || i >= text.len() {
        Seq::empty()
    } else {
        let e = newline_from(text, i);
        proof {
            lemma_newline_from(text, i);
        }
        let line = seq![strip_cr(text.subrange(i, e), e < text.len())];
        if e < text.len() {
            line + lines_from(text, e + 1)
        } else {
            line
        }
    }
}

/// A number right-aligned in a field of three characters.
pub open spec fn pad3(s: Seq<char>) -> Seq<char> {
    if s.len() < 3 {
        repeat_char(' ', (3 - s.len()) as nat) + s
    } else {
        s
    }
}

/// The source line of the error and a caret under its column, when the line
/// exists. The gutter of every excerpt line is as wide as the line number's
/// field, so the caret stands under the character at the error's column.
pub open spec fn excerpt(source: Seq<char>, line: nat, col: nat) -> Seq<char> {
    let lines = lines_from(source, 0);
    let number = pad3(decimal(line));
    let gutter = repeat_char(' ', number.len());
    if 0 < line <= lines.len() {
        gutter + " |\n"@ + number + " | "@ + lines[line - 1] + "\n"@ + gutter + " | "@ + repeat_char(
            ' ',
            if col >= 1 { (col - 1) as nat } else { 0 },
        ) + "^"@ + repeat_char('-', 5) + "\n"@
    } else {
        Seq::empty()
    }
}

/// The whole report.
pub open spec fn diagnostic_text(
    file_path: Seq<char>,
    source: Seq<char>,
    message: Seq<char>,
    line: nat,
    col: nat,
) -> Seq<char> {
    "\n\u{274C} error: "@ + message + "\n"@ + "  --> "@ + file_path + ":"@ + decimal(line) + ":"@
        + decimal(col) + "\n"@ + excerpt(source, line, col) + "\n"@
}

pub proof fn lemma_newline_from(text: Seq<char>, i: int)
    requires
        0 <= i <= text.len(),
    ensures
        i <= newline_from(text, i) <= text.len(),
        newline_from(text, i) < text.len() ==> text[newline_from(text, i)] == '\n',
    decreases text.len() - i,
{
    if 0 <= i < text.len() && text[i] != '\n' {
        lemma_newline_from(text, i + 1);
    }
}

/// No newline in `text[i..p]`.
pub open spec fn no_newline_between(text: Seq<char>, i: int, p: int) -> bool {
    forall|k: int| i <= k < p ==> text[k] != '\n'
}

proof fn lemma_newline_from_skip(text: Seq<char>, i: int, p: int)
    requires
        0 <= i <= p <= text.len(),
        no_newline_between(text, i, p),
    ensures
        newline_from(text, i) == newline_from(text, p),
    decreases p - i,
{
    if i < p {
        lemma_newline_from_skip(text, i + 1, p);
    }
}

proof fn lemma_newline_from_none_before(text: Seq<char>, i: int, k: int)
    requires
        0 <= i <= k < newline_from(text, i),
        newline_from(text, i) <= text.len(),
    ensures
        text[k] != '\n',
    decreases k - i,
{
    if i < k {
        assert(text[i] != '\n');
        lemma_newline_from_none_before(text, i + 1, k);
    } else {
        assert(text[i] != '\n');
    }
}

proof fn lemma_last_newline_at_line_start(text: Seq<char>, i: int, p: int)
    requires
        0 <= i <= p <= text.len(),
        i == 0 || text[i - 1] == '\n',
        no_newline_between(text, i, p),
    ensures
        last_newline(text, p) == i - 1,
    decreases p,
{
    if p > i {
        lemma_last_newline_at_line_start(text, i, p - 1);
    }
}

proof fn lemma_newlines_concat(a: Seq<char>, b: Seq<char>)
    ensures
        newlines(a + b) == newlines(a) + newlines(b),
    decreases b.len(),
{
    if b.len() == 0 {
        assert(a + b =~= a);
    } else {
        lemma_newlines_concat(a, b.drop_last());
        assert((a + b).drop_last() =~= a + b.drop_last());
    }
}

proof fn lemma_newlines_none(s: Seq<char>)
    requires
        forall|k: int| 0 <= k < s.len() ==> s[k] != '\n',
    ensures
        newlines(s) == 0,
    decreases s.len(),
{
    if s.len() > 0 {
        lemma_newlines_none(s.drop_last());
    }
}

/// The lines from a line start `i` up to index `p`: the one that holds `p`
/// comes after as many lines as there are newlines in `text[i..p]`.
proof fn lemma_line_holding(text: Seq<char>, i: int, p: int)
    requires
        0 <= i <= p < text.len(),
        i == 0 || text[i - 1] == '\n',
    ensures
        newlines(text.subrange(i, p)) < lines_from(text, i).len(),
        lines_from(text, i)[newlines(text.subrange(i, p)) as int] == strip_cr(
            text.subrange(last_newline(text, p) + 1, newline_from(text, p)),
            newline_from(text, p) < text.len(),
        ),
    decreases p - i,
{
    let e = newline_from(text, i);
    lemma_newline_from(text, i);
    if e >= p {
        assert(no_newline_between(text, i, p)) by {
            assert forall|k: int| i <= k < p implies text[k] != '\n' by {
                lemma_newline_from_none_before(text, i, k);
            }
        }
        lemma_newline_from_skip(text, i, p);
        lemma_last_newline_at_line_start(text, i, p);
        lemma_newlines_none(text.subrange(i, p));
    } else {
        assert forall|k: int| i <= k < e implies text[k] != '\n' by {
            lemma_newline_from_none_before(text, i, k);
        }
        lemma_line_holding(text, e + 1, p);
        lemma_newlines_concat(text.subrange(i, e + 1), text.subrange(e + 1, p));
        assert(text.subrange(i, e + 1) + text.subrange(e + 1, p) =~= text.subrange(i, p));
        assert(text.subrange(i, e + 1).drop_last() =~= text.subrange(i, e));
        lemma_newlines_none(text.subrange(i, e));
        let n = newlines(text.subrange(e + 1, p));
        let rest = lines_from(text, e + 1);
        let line = seq![strip_cr(text.subrange(i, e), e < text.len())];
        assert(lines_from(text, i) == line + rest);
        assert((line + rest)[n + 1int] == rest[n as int]);
    }
}

/// The excerpt's lines are the source's lines, blank ones included, so that
/// the line numbers of the lexer and of the report agree: for every index `p`
/// of the source, the line numbered `line_at(p)` is the text from
/// `col_at(p) - 1` characters before `p` up to the next newline (without the
/// `\r` of a `\r\n` ending).
pub proof fn law_report_line_holds_index(text: Seq<char>, p: int)
    requires
        0 <= p < text.len(),
    ensures
        1 <= line_at(text, p) <= lines_from(text, 0).len(),
        lines_from(text, 0)[line_at(text, p) - 1] == strip_cr(
            text.subrange(p - (col_at(text, p) - 1), newline_from(text, p)),
            newline_from(text, p) < text.len(),
        ),
{
    lemma_line_holding(text, 0, p);
    assert(text.subrange(0, p) =~= text.take(p));
}

/// The bounds of the `k`-th line (from 0), if there is one.
fn line_bounds(text: &Vec<char>, k: usize) -> (r: Option<(usize, usize)>)
    ensures
        match r {
            Some((a, b)) => k < lines_from(text@, 0).len() && a <= b <= text@.len()
                && lines_from(text@, 0)[k as int] == text@.subrange(a as int, b as int),
            None => k >= lines_from(text@, 0).len(),
        },
{
    let ghost t = text@;
    let mut start: usize = 0;
    let mut count: usize = 0;
    while start < text.len()
        invariant
            start <= text.len(),
            t == text@,
            count <= k,
            lines_from(t, 0).len() == count + lines_from(t, start as int).len(),
            forall|m: int|
                0 <= m < lines_from(t, start as int).len() ==> #[trigger] lines_from(t, 0)[count
                    + m] == lines_from(t, start as int)[m],
        decreases text.len() - start,
    {
        let mut end = start;
        while end < text.len() && text[end] != '\n'
            invariant
                start <= end <= text.len(),
                t == text@,
                newline_from(t, start as int) == newline_from(t, end as int),
            decreases text.len() - end,
        {
            end = end + 1;
        }
        proof {
            lemma_newline_from(t, start as int);
        }
        let ended = end < text.len();
        let stop = if ended && end > start && text[end - 1] == '\r' { end - 1 } else { end };
        let ghost here = lines_from(t, start as int);
        let ghost line = strip_cr(t.subrange(start as int, end as int), ended);
        assert(here == (if ended { seq![line] + lines_from(t, end + 1) } else { seq![line] }));
        assert(line =~= t.subrange(start as int, stop as int));
        if count == k {
            assert(lines_from(t, 0)[count + 0] == here[0]);
            return Some((start, stop));
        }
        proof {
            assert forall|m: int|
                0 <= m < lines_from(t, end + 1).len() implies #[trigger] lines_from(t, 0)[count + 1
                + m] == lines_from(t, end + 1)[m] by {
                assert(lines_from(t, 0)[count + (m + 1)] == here[m + 1]);
            }
        }
        count = count + 1;
        if ended {
            start = end + 1;
        } else {
            start = end;
            assert(lines_from(t, end + 1).len() == 0);
            assert(lines_from(t, start as int).len() == 0);
        }
    }
    None
}

/// The report of a syntax error in the file `file_path` with text `source`.
pub fn render_diagnostic(file_path: &str, source: &str, err: &ParseError) -> (s: String)
    ensures
        s@ == diagnostic_text(file_path@, source@, err.message@, err.line as nat, err.col as nat),
{
    let mut s = String::new();
    push_str(&mut s, "\n\u{274C} error: ");
    push_str(&mut s, err.message.as_str());
    push_str(&mut s, "\n");
    push_str(&mut s, "  --> ");
    push_str(&mut s, file_path);
    push_str(&mut s, ":");
    push_decimal(&mut s, err.line);
    push_str(&mut s, ":");
    push_decimal(&mut s, err.col);
    push_str(&mut s, "\n");
    let ghost head = s@;
    let text = chars_of(source);
    if err.line > 0 {
        match line_bounds(&text, err.line - 1) {
            Some((a, b)) => {
                let mut number = String::new();
                let mut digits = String::new();
                push_decimal(&mut digits, err.line);
                if digits.as_str().unicode_len() < 3 {
                    push_repeated(&mut number, ' ', 3 - digits.as_str().unicode_len());
                }
                push_str(&mut number, digits.as_str());
                let width = number.as_str().unicode_len();
                push_repeated(&mut s, ' ', width);
                push_str(&mut s, " |\n");
                push_str(&mut s, number.as_str());
                push_str(&mut s, " | ");
                push_range(&mut s, &text, a, b);
                push_str(&mut s, "\n");
                push_repeated(&mut s, ' ', width);
                push_str(&mut s, " | ");
                let pad = if err.col >= 1 { err.col - 1 } else { 0 };
                push_repeated(&mut s, ' ', pad);
                push_str(&mut s, "^");
                push_repeated(&mut s, '-', 5);
                push_str(&mut s, "\n");
                assert(number@ =~= pad3(decimal(err.line as nat)));
                assert(s@ =~= head + excerpt(source@, err.line as nat, err.col as nat));
            },
            None => {
                assert(s@ =~= head + excerpt(source@, err.line as nat, err.col as nat));
            },
        }
    } else {
        assert(s@ =~= head + excerpt(source@, err.line as nat, err.col as nat));
    }
    push_str(&mut s, "\n");
    assert(s@ =~= diagnostic_text(file_path@, source@, err.message@, err.line as nat, err.col as nat));
    s
}

} // verus!
