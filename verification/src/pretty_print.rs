//! Rendering of a diagnostic with the source lines it points at.

use vstd::prelude::*;
use crate::diagnostics::{Diagnostic, DiagnosticView, Diagnostics, Span};
use crate::source_file::SourceFile;
use crate::text::{append_chars, append_str, decimal, decimal_chars, from_chars, to_chars};

verus! {

/// How many bytes the UTF-8 encoding of `c` takes.
pub open spec fn utf8_len(c: char) -> nat {
    if '\u{80}' > c {
        1
    } else if '\u{800}' > c {
        2
    } else if '\u{10000}' > c {
        3
    } else {
        4
    }
}

/// The byte offset at which character `n` of the text starts.
pub open spec fn byte_offset(text: Seq<char>, n: nat) -> nat
    decreases n,
{
    if n == 0 || n > text.len() {
        0
    } else {
        byte_offset(text, (n - 1) as nat) + utf8_len(text[n - 1])
    }
}

/// How many of the first `n` characters are line breaks that start before
/// the byte offset `offset`.
pub open spec fn breaks_before(text: Seq<char>, offset: nat, n: nat) -> nat
    decreases n,
{
    if n == 0 || n > text.len() {
        0
    } else if text[n - 1] == '\n' && byte_offset(text, (n - 1) as nat) < offset {
        breaks_before(text, offset, (n - 1) as nat) + 1
    } else {
        breaks_before(text, offset, (n - 1) as nat)
    }
}

/// The line, counted from zero, that the byte offset `offset` lies on.
pub open spec fn line_of(text: Seq<char>, offset: nat) -> nat {
    breaks_before(text, offset, text.len())
}

/// The lines of the first `n` characters: the text between line breaks.
pub open spec fn lines_upto(text: Seq<char>, n: nat) -> Seq<Seq<char>>
    decreases n,
{
    if n == 0 || n > text.len() {
        seq![Seq::empty()]
    } else {
        let before = lines_upto(text, (n - 1) as nat);
        if text[n - 1] == '\n' {
            before.push(Seq::empty())
        } else {
            before.update(before.len() - 1, before.last().push(text[n - 1]))
        }
    }
}

/// The lines of a text.
pub open spec fn lines_of(text: Seq<char>) -> Seq<Seq<char>> {
    lines_upto(text, text.len())
}

/// The gutter before a line: the line number, right-aligned in two columns,
/// and a bar; blank where there is no line number.
pub open spec fn gutter(line_number: nat) -> Seq<char> {
    if line_number > 0 {
        (if line_number < 10 {
            seq![' '] + decimal(line_number)
        } else {
            decimal(line_number)
        }) + " | "@
    } else {
        "   | "@
    }
}

/// The gutter for the line number, and the line of that number where
/// there is one.
pub open spec fn numbered_line(line_number: nat, lines: Seq<Seq<char>>) -> Seq<char> {
    if 0 < line_number <= lines.len() {
        gutter(line_number) + lines[line_number - 1]
    } else {
        gutter(line_number)
    }
}

/// The lines with the numbers from `from` up to but not including `to`,
/// each with its gutter and a line break.
pub open spec fn numbered_lines(lines: Seq<Seq<char>>, from: nat, to: nat) -> Seq<char>
    decreases to,
{
    if to <= from {
        Seq::empty()
    } else {
        numbered_lines(lines, from, (to - 1) as nat) + numbered_line((to - 1) as nat, lines)
            + seq!['\n']
    }
}

/// A diagnostic as it is shown: the description, a locator with the
/// number of the line that the span starts on, a blank gutter, the lines
/// that the span covers, each behind its number, and a blank gutter. A span
/// that ends before it starts covers the line that it starts on.
pub open spec fn pretty_printed(text: Seq<char>, span: Span, description: Seq<char>) -> Seq<char> {
    let start_line = line_of(text, span.start as nat);
    let end_line = line_of(text, span.end as nat);
    let lines = lines_of(text);
    ": "@ + description + seq!['\n'] + "  -->  line "@ + decimal(start_line + 1) + seq!['\n']
        + gutter(0) + seq!['\n'] + numbered_lines(
        lines,
        start_line + 1,
        if end_line < start_line {
            start_line + 2
        } else {
            end_line + 2
        },
    ) + gutter(0) + seq!['\n']
}

/// The views of a list of lines.
pub open spec fn line_views(lines: Seq<Vec<char>>) -> Seq<Seq<char>> {
    Seq::new(lines.len(), |i: int| lines[i]@)
}

/// The views of a list of string slices.
pub open spec fn str_views(lines: Seq<&str>) -> Seq<Seq<char>> {
    Seq::new(lines.len(), |i: int| lines[i]@)
}

/// A line lies on a line of the text.
proof fn lemma_line_exists(text: Seq<char>, offset: nat, n: nat)
    requires
        n <= text.len(),
    ensures
        breaks_before(text, offset, n) < lines_upto(text, n).len(),
    decreases n,
{
    if n > 0 {
        lemma_line_exists(text, offset, (n - 1) as nat);
    }
}

fn char_len(c: char) -> (r: usize)
    ensures
        r == utf8_len(c),
{
    if '\u{80}' > c {
        1
    } else if '\u{800}' > c {
        2
    } else if '\u{10000}' > c {
        3
    } else {
        4
    }
}

/// The line, counted from zero, that the byte offset lies on.
fn find_line(text: &Vec<char>, offset: usize) -> (r: usize)
    ensures
        r == line_of(text@, offset as nat),
        r <= text@.len(),
{
    let mut line: usize = 0;
    let mut at: usize = 0;
    let mut i: usize = 0;
    while i < text.len() && at < offset
        invariant
            i <= text.len(),
            line <= i,
            line == breaks_before(text@, offset as nat, i as nat),
            at < offset ==> at == byte_offset(text@, i as nat),
            at >= offset ==> byte_offset(text@, i as nat) >= offset,
            at <= offset + 4,
        decreases text.len() - i,
    {
        if text[i] == '\n' {
            line += 1;
        }
        let step = char_len(text[i]);
        at = if step >= offset - at {
            offset
        } else {
            at + step
        };
        i += 1;
    }
    proof {
        lemma_rest_adds_nothing(text@, offset as nat, i as nat, text@.len());
    }
    line
}

/// Line breaks at or behind the offset do not count.
proof fn lemma_rest_adds_nothing(text: Seq<char>, offset: nat, i: nat, n: nat)
    requires
        i <= n <= text.len(),
        i < text.len() ==> byte_offset(text, i) >= offset,
    ensures
        breaks_before(text, offset, n) == breaks_before(text, offset, i),
    decreases n - i,
{
    if i < n {
        lemma_rest_adds_nothing(text, offset, i, (n - 1) as nat);
        lemma_byte_offset_grows(text, i, (n - 1) as nat);
    }
}

/// Later characters start at later offsets.
proof fn lemma_byte_offset_grows(text: Seq<char>, i: nat, j: nat)
    requires
        i <= j <= text.len(),
    ensures
        byte_offset(text, i) <= byte_offset(text, j),
    decreases j - i,
{
    if i < j {
        lemma_byte_offset_grows(text, i, (j - 1) as nat);
    }
}

/// The lines of a text.
fn split_lines(text: &Vec<char>) -> (lines: Vec<Vec<char>>)
    ensures
        line_views(lines@) == lines_of(text@),
{
    let mut lines: Vec<Vec<char>> = Vec::new();
    let mut current: Vec<char> = Vec::new();
    let mut i: usize = 0;
    proof {
        assert(line_views(lines@).push(current@) =~= lines_upto(text@, 0));
    }
    while i < text.len()
        invariant
            i <= text.len(),
            line_views(lines@).push(current@) == lines_upto(text@, i as nat),
        decreases text.len() - i,
    {
        let ghost before = lines_upto(text@, i as nat);
        if text[i] == '\n' {
            lines.push(current);
            current = Vec::new();
            proof {
                assert(line_views(lines@) =~= before);
                assert(line_views(lines@).push(current@) =~= lines_upto(text@, (i + 1) as nat));
            }
        } else {
            current.push(text[i]);
            proof {
                assert(line_views(lines@).push(current@) =~= lines_upto(text@, (i + 1) as nat));
            }
        }
        i += 1;
    }
    let ghost done = line_views(lines@);
    lines.push(current);
    proof {
        assert(line_views(lines@) =~= done.push(current@));
    }
    lines
}

/// Appends the gutter for a line number.
fn push_gutter(out: &mut Vec<char>, line_number: usize)
    ensures
        final(out)@ == old(out)@ + gutter(line_number as nat),
{
    let ghost before = out@;
    if line_number > 0 {
        if line_number < 10 {
            out.push(' ');
        }
        let digits = decimal_chars(line_number);
        append_chars(out, &digits);
        append_str(out, " | ");
    } else {
        append_str(out, "   | ");
    }
    proof {
        assert(out@ =~= before + gutter(line_number as nat));
    }
}

/// The gutter for a line number.
pub fn format_line_number(line_number: usize) -> (r: String)
    ensures
        r@ == gutter(line_number as nat),
{
    let mut out: Vec<char> = Vec::new();
    push_gutter(&mut out, line_number);
    proof {
        assert(out@ =~= gutter(line_number as nat));
    }
    from_chars(&out)
}

/// The gutter for a line number, and the line of that number where there
/// is one.
pub fn format_line_number_with_line(line_number: usize, lines: &[&str]) -> (r: String)
    ensures
        r@ == numbered_line(line_number as nat, str_views(lines@)),
{
    let mut out: Vec<char> = Vec::new();
    push_gutter(&mut out, line_number);
    if line_number > 0 && line_number <= lines.len() {
        append_str(&mut out, lines[line_number - 1]);
    }
    proof {
        assert(out@ =~= numbered_line(line_number as nat, str_views(lines@)));
    }
    from_chars(&out)
}

/// Appends the gutter for a line number and the line of that number.
fn push_numbered_line(out: &mut Vec<char>, line_number: usize, lines: &Vec<Vec<char>>)
    ensures
        final(out)@ == old(out)@ + numbered_line(line_number as nat, line_views(lines@)),
{
    let ghost before = out@;
    push_gutter(out, line_number);
    if line_number > 0 && line_number <= lines.len() {
        append_chars(out, &lines[line_number - 1]);
    }
    proof {
        assert(out@ =~= before + numbered_line(line_number as nat, line_views(lines@)));
    }
}

/// Renders a diagnostic at `span` in `file` for reading: the description,
/// the line number, and the lines that the span covers.
pub fn pretty_print(file: &SourceFile, span: &Span, description: &str) -> (r: String)
    ensures
        r@ == pretty_printed(file@, *span, description@),
{
    let text = to_chars(file.as_str());
    let start_line = find_line(&text, span.start);
    let found_end = find_line(&text, span.end);
    let end_line = if found_end < start_line {
        start_line
    } else {
        found_end
    };
    let lines = split_lines(&text);
    let count = lines.len();
    proof {
        lemma_line_exists(text@, span.start as nat, text@.len());
        lemma_line_exists(text@, span.end as nat, text@.len());
        assert(line_views(lines@).len() == lines@.len());
        assert(start_line < count);
        assert(end_line < count);
    }
    let ghost shown = line_views(lines@);
    let mut out: Vec<char> = Vec::new();
    append_str(&mut out, ": ");
    append_str(&mut out, description);
    out.push('\n');
    append_str(&mut out, "  -->  line ");
    append_chars(&mut out, &decimal_chars(start_line + 1));
    out.push('\n');
    push_gutter(&mut out, 0);
    out.push('\n');
    let ghost head = out@;
    proof {
        assert(head =~= ": "@ + description@ + seq!['\n'] + "  -->  line "@ + decimal(
            (start_line + 1) as nat,
        ) + seq!['\n'] + gutter(0) + seq!['\n']);
    }
    let mut k: usize = start_line;
    proof {
        assert(out@ =~= head + numbered_lines(shown, (start_line + 1) as nat, (k + 1) as nat));
    }
    while k <= end_line
        invariant
            start_line <= k <= end_line + 1,
            end_line < count,
            count == lines@.len(),
            shown == line_views(lines@),
            out@ == head + numbered_lines(shown, (start_line + 1) as nat, (k + 1) as nat),
        decreases end_line + 1 - k,
    {
        push_numbered_line(&mut out, k + 1, &lines);
        out.push('\n');
        proof {
            assert(out@ =~= head + numbered_lines(shown, (start_line + 1) as nat, (k + 2) as nat));
        }
        k += 1;
    }
    let ghost body = out@;
    push_gutter(&mut out, 0);
    out.push('\n');
    proof {
        assert(out@ =~= body + gutter(0) + seq!['\n']);
        assert(out@ =~= pretty_printed(file@, *span, description@));
    }
    from_chars(&out)
}

/// The text that a span points into: that of the file with its number,
/// or no text where there is no such file.
pub open spec fn text_at(files: Seq<SourceFile>, span: Span) -> Seq<char> {
    if span.file < files.len() {
        files[span.file as int]@
    } else {
        Seq::empty()
    }
}

/// One entry as it is shown: its severity, then the diagnostic.
pub open spec fn entry_shown(files: Seq<SourceFile>, entry: DiagnosticView) -> Seq<char> {
    match entry {
        DiagnosticView::Error(e) => "error"@ + pretty_printed(
            text_at(files, e.span),
            e.span,
            e.message,
        ),
        DiagnosticView::Warning(w) => "warning"@ + pretty_printed(
            text_at(files, w.span),
            w.span,
            w.message,
        ),
    }
}

/// The first `n` entries as they are shown, one after the other.
pub open spec fn entries_shown(files: Seq<SourceFile>, entries: Seq<DiagnosticView>, n: nat) -> Seq<
    char,
>
    decreases n,
{
    if n == 0 || n > entries.len() {
        Seq::empty()
    } else {
        entries_shown(files, entries, (n - 1) as nat) + entry_shown(files, entries[n - 1])
    }
}

impl Diagnostics {
    /// All entries in one report, each rendered against the source text
    /// that its span points into.
    pub fn to_pretty_string(&self, files: &Vec<SourceFile>) -> (r: String)
        ensures
            r@ == entries_shown(files@, self@, self@.len()),
    {
        let empty = SourceFile::new_static("");
        proof {
            reveal_strlit("");
            assert(empty@ =~= Seq::<char>::empty());
        }
        let mut out: Vec<char> = Vec::new();
        let mut i: usize = 0;
        proof {
            assert(out@ =~= entries_shown(files@, self@, 0));
        }
        while i < self.entries.len()
            invariant
                i <= self.entries.len(),
                empty@ == Seq::<char>::empty(),
                out@ == entries_shown(files@, self@, i as nat),
            decreases self.entries.len() - i,
        {
            let ghost before = out@;
            proof {
                assert(self@[i as int] == self.entries@[i as int]@);
            }
            match &self.entries[i] {
                Diagnostic::Error(e) => {
                    let file = if e.span.file < files.len() {
                        &files[e.span.file]
                    } else {
                        &empty
                    };
                    append_str(&mut out, "error");
                    append_str(&mut out, pretty_print(file, &e.span, e.message.as_str()).as_str());
                },
                Diagnostic::Warning(w) => {
                    let file = if w.span.file < files.len() {
                        &files[w.span.file]
                    } else {
                        &empty
                    };
                    append_str(&mut out, "warning");
                    append_str(&mut out, pretty_print(file, &w.span, w.message.as_str()).as_str());
                },
            }
            proof {
                assert(out@ =~= before + entry_shown(files@, self@[i as int]));
            }
            i += 1;
        }
        from_chars(&out)
    }
}

} // verus!
