//! Diagnostics for the user: a message about a range of the source text,
//! rendered with the lines of source that the range covers.
//!
//! Offsets are byte offsets into the UTF-8 source text; lines are what lies
//! between line feeds (byte 10). What is rendered is stated over the bytes
//! of the source: the text of a line is the decoding of its bytes.

use crate::range::Range;
use crate::text::{
    decimal, decimal_text, lemma_boundary_after_ascii, lemma_decimal_is_ascii, push_repeated,
    push_right_aligned, repeated, right_aligned, slice,
};
use vstd::prelude::*;
use vstd::string::StringExecFns;
use vstd::string::StringSliceAdditionalSpecFns;
use vstd::utf8::{decode_utf8, is_char_boundary, valid_utf8};

verus! {

/// A diagnostic for the user.
pub struct Report {
    pub message: String,
    pub range: Range,
    /// Advice on how to mend what the message is about. It is kept with the
    /// report and is not part of what is rendered.
    pub hint: Option<String>,
}

/// A report as a mathematical value.
pub struct ReportView {
    pub message: Seq<char>,
    pub range: Range,
    pub hint: Option<Seq<char>>,
}

impl View for Report {
    type V = ReportView;

    open spec fn view(&self) -> ReportView {
        ReportView {
            message: self.message@,
            range: self.range,
            hint: match self.hint {
                Some(hint) => Some(hint@),
                None => None,
            },
        }
    }
}

/// A report together with the source text that it is about, ready to be
/// rendered.
pub struct ReportDisplay<'a, 'b> {
    report: &'a Report,
    source: &'b str,
}

/// The byte that ends a line.
pub const LINE_FEED: u8 = 10;

/// The byte that may stand before a line feed and then belongs to it.
pub const CARRIAGE_RETURN: u8 = 13;

/// The number of line feeds among the first `offset` bytes: the zero-based
/// number of the line that `offset` is on.
pub open spec fn line_number_of(bytes: Seq<u8>, offset: int) -> nat
    decreases offset,
{
    if offset <= 0 || offset > bytes.len() {
        0
    } else if bytes[offset - 1] == LINE_FEED {
        line_number_of(bytes, offset - 1) + 1
    } else {
        line_number_of(bytes, offset - 1)
    }
}

/// The offset at which the line of position `offset` starts: after the last
/// line feed before `offset`, or 0 where there is none. A line feed lies on
/// the line that it ends.
pub open spec fn line_start_of(bytes: Seq<u8>, offset: int) -> int
    decreases offset,
{
    if offset <= 0 {
        0
    } else if offset <= bytes.len() && bytes[offset - 1] == LINE_FEED {
        offset
    } else {
        line_start_of(bytes, offset - 1)
    }
}

/// The position of the first line feed at or after `offset`, or the length
/// of the text where there is none.
pub open spec fn line_end_of(bytes: Seq<u8>, offset: int) -> int
    decreases bytes.len() - offset,
{
    if offset >= bytes.len() {
        bytes.len() as int
    } else if offset >= 0 && bytes[offset] == LINE_FEED {
        offset
    } else {
        line_end_of(bytes, offset + 1)
    }
}

/// The text of the line from `from` up to its end at `stop`: the bytes
/// between the two, without a carriage return just before the line feed
/// that ends the line.
pub open spec fn line_text(bytes: Seq<u8>, from: int, stop: int) -> Seq<u8> {
    if from < stop < bytes.len() && bytes[stop] == LINE_FEED && bytes[stop - 1]
        == CARRIAGE_RETURN {
        bytes.subrange(from, stop - 1)
    } else {
        bytes.subrange(from, stop)
    }
}

/// The texts of the lines from the line start `from` up to the line end
/// `to`: one for each line feed between the two, and one for the line that
/// ends at `to`. An empty line is a line.
pub open spec fn lines_between(bytes: Seq<u8>, from: int, to: int) -> Seq<Seq<u8>>
    decreases to - from,
{
    if from > to {
        Seq::empty()
    } else {
        let stop = line_end_of(bytes, from);
        if stop >= to || stop < from {
            seq![line_text(bytes, from, to)]
        } else {
            seq![line_text(bytes, from, stop)] + lines_between(bytes, stop + 1, to)
        }
    }
}

/// The lines of source that a range covers: from the start of the line of
/// its first byte to the end of the line of its last byte.
pub open spec fn covered_lines(bytes: Seq<u8>, range: Range) -> Seq<Seq<u8>> {
    lines_between(
        bytes,
        line_start_of(bytes, range.0 as int),
        line_end_of(bytes, range.1 - 1),
    )
}

/// Whether the range lies on one line: its first byte and its last byte
/// have the same line number.
pub open spec fn on_one_line(bytes: Seq<u8>, range: Range) -> bool {
    line_number_of(bytes, range.0 as int) == line_number_of(bytes, range.1 - 1)
}

/// Whether a range of a source text can be rendered: it is well formed,
/// lies within the text, and holds a last byte to find the last line by.
pub open spec fn can_render(bytes: Seq<u8>, range: Range) -> bool {
    &&& range.0 <= range.1
    &&& 1 <= range.1 <= bytes.len()
}

/// The gutter of a line without a number.
pub open spec fn blank_gutter(width: nat) -> Seq<char> {
    repeated(' ', width) + seq![' ', '|']
}

/// A line of source with its one-based number in the gutter, `mark` between
/// the two.
pub open spec fn numbered_line(number: nat, width: nat, mark: Seq<char>, text: Seq<char>) -> Seq<
    char,
> {
    right_aligned(decimal(number), width) + mark + text
}

/// The line that underlines `length` columns from column `column` on.
pub open spec fn underline(width: nat, column: nat, length: nat) -> Seq<char> {
    repeated(' ', width) + seq![' ', '|', ' '] + repeated(' ', column) + repeated('^', length)
}

/// The lines that show a range of a source text.
///
/// A range on one line gives three lines: an empty gutter, the line of
/// source, and carets under the range. A range over several lines gives
/// each line from that of its first byte to that of its last byte, marked
/// with `>`. Numbers are one-based and right-aligned to the width of the
/// largest number shown. An empty range at the start of a line, whose last
/// byte would lie on the line before, covers no line.
pub open spec fn rendered_lines(bytes: Seq<u8>, range: Range) -> Seq<Seq<char>> {
    let first = line_number_of(bytes, range.0 as int);
    let start = line_start_of(bytes, range.0 as int);
    let end = line_end_of(bytes, range.1 - 1);
    if on_one_line(bytes, range) {
        let width = decimal(first + 1).len();
        seq![
            blank_gutter(width),
            numbered_line(
                first + 1,
                width,
                seq![' ', '|', ' '],
                decode_utf8(line_text(bytes, start, end)),
            ),
            underline(width, (range.0 - start) as nat, (range.1 - range.0) as nat),
        ]
    } else {
        let lines = lines_between(bytes, start, end);
        let width = decimal(first + lines.len()).len();
        Seq::new(
            lines.len(),
            |i: int|
                numbered_line(
                    (first + i + 1) as nat,
                    width,
                    seq![' ', '>', '|', ' '],
                    decode_utf8(lines[i]),
                ),
        )
    }
}

/// The first `count` of `lines`, each followed by a line feed.
pub open spec fn joined(lines: Seq<Seq<char>>, count: nat) -> Seq<char>
    decreases count,
{
    if count == 0 || count > lines.len() {
        Seq::empty()
    } else {
        joined(lines, (count - 1) as nat) + lines[count - 1] + seq!['\n']
    }
}

/// A rendered report: the header with the message, then the lines that
/// show the range.
pub open spec fn rendered_report(message: Seq<char>, bytes: Seq<u8>, range: Range) -> Seq<char> {
    let lines = rendered_lines(bytes, range);
    seq!['e', 'r', 'r', 'o', 'r', ':', ' '] + message + seq!['\n'] + joined(lines, lines.len())
}

/// The views of a sequence of texts, in order.
pub open spec fn texts_view(texts: Seq<String>) -> Seq<Seq<char>> {
    Seq::new(texts.len(), |i: int| texts[i]@)
}

/// A line start is never after the position it is the line start of; it
/// lies after a line feed or at 0, and no line feed lies between it and the
/// position. So a position and its line start have the same line number.
pub proof fn lemma_line_start(bytes: Seq<u8>, offset: int)
    requires
        0 <= offset <= bytes.len(),
    ensures
        0 <= line_start_of(bytes, offset) <= offset,
        line_start_of(bytes, offset) == 0 || bytes[line_start_of(bytes, offset) - 1]
            == LINE_FEED,
        forall|i: int| line_start_of(bytes, offset) <= i < offset ==> bytes[i] != LINE_FEED,
        line_number_of(bytes, line_start_of(bytes, offset)) == line_number_of(bytes, offset),
    decreases offset,
{
    if offset > 0 && bytes[offset - 1] != LINE_FEED {
        lemma_line_start(bytes, offset - 1);
    }
}

/// A line end is not before the position it is the line end of; it lies at
/// a line feed or at the end of the text, with no line feed on the way.
pub proof fn lemma_line_end(bytes: Seq<u8>, offset: int)
    requires
        0 <= offset <= bytes.len(),
    ensures
        offset <= line_end_of(bytes, offset) <= bytes.len(),
        line_end_of(bytes, offset) == bytes.len() || bytes[line_end_of(bytes, offset)]
            == LINE_FEED,
        forall|i: int| offset <= i < line_end_of(bytes, offset) ==> bytes[i] != LINE_FEED,
    decreases bytes.len() - offset,
{
    if offset < bytes.len() && bytes[offset] != LINE_FEED {
        lemma_line_end(bytes, offset + 1);
    }
}

/// The zero-based number of the line that byte `offset` of `source` is on.
pub fn line_number(source: &str, offset: usize) -> (number: usize)
    requires
        offset <= source.spec_bytes().len(),
    ensures
        number == line_number_of(source.spec_bytes(), offset as int),
        number <= offset,
{
    let bytes = source.as_bytes();
    let mut number: usize = 0;
    let mut i: usize = 0;
    while i < offset
        invariant
            i <= offset <= bytes@.len(),
            number <= i,
            number == line_number_of(bytes@, i as int),
        decreases offset - i,
    {
        if bytes[i] == LINE_FEED {
            number = number + 1;
        }
        i = i + 1;
    }
    number
}

/// The offset at which the line of position `offset` starts. It is never
/// after `offset`.
pub fn line_start(source: &str, offset: usize) -> (start: usize)
    requires
        offset <= source.spec_bytes().len(),
    ensures
        start == line_start_of(source.spec_bytes(), offset as int),
        start <= offset,
        start == 0 || source.spec_bytes()[start - 1] == LINE_FEED,
        forall|i: int| start <= i < offset ==> source.spec_bytes()[i] != LINE_FEED,
        is_char_boundary(source.spec_bytes(), start as int),
{
    let bytes = source.as_bytes();
    proof {
        vstd::utf8::encode_utf8_valid_utf8(source@);
        vstd::utf8::is_char_boundary_start_end_of_seq(bytes@);
        lemma_line_start(bytes@, offset as int);
    }
    let mut i: usize = offset;
    while i > 0
        invariant
            i <= offset <= bytes@.len(),
            bytes@ == source.spec_bytes(),
            valid_utf8(bytes@),
            line_start_of(bytes@, offset as int) == line_start_of(bytes@, i as int),
            forall|k: int|
                line_start_of(bytes@, offset as int) <= k < offset ==> bytes@[k] != LINE_FEED,
        decreases i,
    {
        if bytes[i - 1] == LINE_FEED {
            proof {
                lemma_boundary_after_ascii(bytes@, i - 1);
            }
            return i;
        }
        i = i - 1;
    }
    0
}

/// The offset of the line feed that ends the line of byte `offset`, or the
/// length of the text where nothing ends it.
pub fn line_end(source: &str, offset: usize) -> (end: usize)
    requires
        offset <= source.spec_bytes().len(),
    ensures
        end == line_end_of(source.spec_bytes(), offset as int),
        offset <= end <= source.spec_bytes().len(),
        end == source.spec_bytes().len() || source.spec_bytes()[end as int] == LINE_FEED,
        is_char_boundary(source.spec_bytes(), end as int),
{
    let bytes = source.as_bytes();
    proof {
        vstd::utf8::encode_utf8_valid_utf8(source@);
        vstd::utf8::is_char_boundary_start_end_of_seq(bytes@);
    }
    let mut i: usize = offset;
    while i < bytes.len()
        invariant
            offset <= i <= bytes@.len(),
            bytes@ == source.spec_bytes(),
            valid_utf8(bytes@),
            line_end_of(bytes@, offset as int) == line_end_of(bytes@, i as int),
        decreases bytes@.len() - i,
    {
        if bytes[i] == LINE_FEED {
            proof {
                lemma_boundary_after_ascii(bytes@, i as int);
            }
            return i;
        }
        i = i + 1;
    }
    i
}

/// The decodings of a sequence of lines, in order.
pub open spec fn decoded(lines: Seq<Seq<u8>>) -> Seq<Seq<char>> {
    Seq::new(lines.len(), |i: int| decode_utf8(lines[i]))
}

/// The views of a sequence of borrowed texts, in order.
pub open spec fn pieces_view(pieces: Seq<&str>) -> Seq<Seq<char>> {
    Seq::new(pieces.len(), |i: int| pieces[i]@)
}

/// The text of the line of `source` that starts at `from` and ends at
/// `stop`, a line feed or the end of the text.
pub fn line_piece<'a>(source: &'a str, from: usize, stop: usize) -> (text: &'a str)
    requires
        from <= stop <= source.spec_bytes().len(),
        is_char_boundary(source.spec_bytes(), from as int),
        stop == source.spec_bytes().len() || source.spec_bytes()[stop as int] == LINE_FEED,
    ensures
        text@ == decode_utf8(line_text(source.spec_bytes(), from as int, stop as int)),
{
    let bytes = source.as_bytes();
    proof {
        vstd::utf8::encode_utf8_valid_utf8(source@);
        vstd::utf8::is_char_boundary_start_end_of_seq(bytes@);
        if stop < bytes@.len() {
            lemma_boundary_after_ascii(bytes@, stop as int);
        }
    }
    if from < stop && stop < bytes.len() && bytes[stop - 1] == CARRIAGE_RETURN {
        proof {
            lemma_boundary_after_ascii(bytes@, stop - 1);
        }
        slice(source, from, stop - 1)
    } else {
        slice(source, from, stop)
    }
}

/// The lines of `source` that `range` covers.
pub fn lines<'a>(source: &'a str, range: Range) -> (texts: Vec<&'a str>)
    requires
        can_render(source.spec_bytes(), range),
    ensures
        pieces_view(texts@) == decoded(covered_lines(source.spec_bytes(), range)),
{
    let bytes = source.as_bytes();
    let start = line_start(source, range.0);
    let end = line_end(source, range.1 - 1);
    let mut texts: Vec<&'a str> = Vec::new();
    if start > end {
        assert(pieces_view(texts@) =~= decoded(covered_lines(source.spec_bytes(), range)));
        return texts;
    }
    let mut from = start;
    let ghost mut done: Seq<Seq<u8>> = Seq::empty();
    proof {
        vstd::utf8::encode_utf8_valid_utf8(source@);
        assert(Seq::<Seq<u8>>::empty() + lines_between(bytes@, from as int, end as int)
            =~= lines_between(bytes@, from as int, end as int));
    }
    loop
        invariant_except_break
            lines_between(bytes@, start as int, end as int) == done + lines_between(
                bytes@,
                from as int,
                end as int,
            ),
        invariant
            start <= from <= end <= bytes@.len(),
            bytes@ == source.spec_bytes(),
            valid_utf8(bytes@),
            is_char_boundary(bytes@, from as int),
            end == bytes@.len() || bytes@[end as int] == LINE_FEED,
            texts.len() == done.len(),
            forall|i: int| 0 <= i < texts.len() ==> (#[trigger] texts[i])@ == decode_utf8(done[i]),
        ensures
            lines_between(bytes@, start as int, end as int) == done,
        decreases end - from,
    {
        let mut stop = from;
        while stop < end && bytes[stop] != LINE_FEED
            invariant
                from <= stop <= end <= bytes@.len(),
                line_end_of(bytes@, from as int) == line_end_of(bytes@, stop as int),
            decreases end - stop,
        {
            stop = stop + 1;
        }
        proof {
            lemma_line_end(bytes@, stop as int);
        }
        texts.push(line_piece(source, from, stop));
        let ghost line = line_text(bytes@, from as int, stop as int);
        if stop == end {
            proof {
                assert(done + lines_between(bytes@, from as int, end as int) =~= done.push(line));
                done = done.push(line);
            }
            break ;
        }
        proof {
            lemma_boundary_after_ascii(bytes@, stop as int);
            assert(done + lines_between(bytes@, from as int, end as int) =~= done.push(line)
                + lines_between(bytes@, stop + 1, end as int));
            done = done.push(line);
        }
        from = stop + 1;
    }
    proof {
        assert(pieces_view(texts@) =~= decoded(done));
    }
    texts
}

/// Whether `range` can be rendered over `source`.
pub fn can_be_rendered(source: &str, range: Range) -> (renderable: bool)
    ensures
        renderable == can_render(source.spec_bytes(), range),
{
    let length = source.as_bytes().len();
    range.0 <= range.1 && 1 <= range.1 && range.1 <= length
}

/// The lines that show `range` of `source`, in order, without line feeds.
pub fn lines_format(source: &str, range: Range) -> (shown: Vec<String>)
    requires
        can_render(source.spec_bytes(), range),
    ensures
        texts_view(shown@) == rendered_lines(source.spec_bytes(), range),
{
    let ghost bytes = source.spec_bytes();
    let first_line_number = line_number(source, range.0);
    let last_line_number = line_number(source, range.1 - 1);
    proof {
        reveal_strlit(" ");
        reveal_strlit("^");
        reveal_strlit(" |");
        reveal_strlit(" | ");
        reveal_strlit(" >| ");
    }
    let mut shown: Vec<String> = Vec::new();
    if first_line_number == last_line_number {
        let start = line_start(source, range.0);
        let end = line_end(source, range.1 - 1);
        proof {
            lemma_line_start(bytes, range.0 as int);
            lemma_line_end(bytes, range.1 - 1);
            lemma_decimal_is_ascii((first_line_number + 1) as nat);
            if start > end {
                // The range is empty and starts a line: its last byte is
                // the line feed before, on the line before.
                assert(bytes[range.0 - 1] == LINE_FEED);
            }
        }
        let text = line_piece(source, start, end);
        let number = decimal_text(first_line_number as u128 + 1);
        let width = number.as_str().as_bytes().len();
        proof {
            vstd::utf8::is_ascii_chars_encode_utf8(number@);
        }
        let mut gutter = String::new();
        push_repeated(&mut gutter, " ", width);
        gutter.append(" |");
        assert(gutter@ =~= blank_gutter(width as nat));
        let mut line = String::new();
        push_right_aligned(&mut line, number.as_str(), width);
        line.append(" | ");
        line.append(text);
        assert(line@ =~= numbered_line(
            (first_line_number + 1) as nat,
            width as nat,
            seq![' ', '|', ' '],
            decode_utf8(line_text(bytes, start as int, end as int)),
        ));
        let mut under = String::new();
        push_repeated(&mut under, " ", width);
        under.append(" | ");
        push_repeated(&mut under, " ", range.0 - start);
        push_repeated(&mut under, "^", range.1 - range.0);
        assert(under@ =~= underline(
            width as nat,
            (range.0 - start) as nat,
            (range.1 - range.0) as nat,
        ));
        shown.push(gutter);
        shown.push(line);
        shown.push(under);
        assert(texts_view(shown@) =~= rendered_lines(bytes, range));
        return shown;
    }
    let texts = lines(source, range);
    let ghost covered = covered_lines(bytes, range);
    assert(texts.len() == covered.len()) by {
        assert(pieces_view(texts@).len() == decoded(covered).len());
    }
    assert forall|i: int| 0 <= i < texts.len() implies (#[trigger] texts[i])@ == decode_utf8(
        covered[i],
    ) by {
        assert(pieces_view(texts@)[i] == decoded(covered)[i]);
    }
    let largest = decimal_text(first_line_number as u128 + texts.len() as u128);
    let width = largest.as_str().as_bytes().len();
    proof {
        lemma_decimal_is_ascii((first_line_number + texts.len()) as nat);
        vstd::utf8::is_ascii_chars_encode_utf8(largest@);
    }
    let mut i: usize = 0;
    while i < texts.len()
        invariant
            i <= texts.len(),
            texts.len() == covered.len(),
            shown.len() == i,
            width == decimal((first_line_number + texts.len()) as nat).len(),
            " >| "@ == seq![' ', '>', '|', ' '],
            forall|k: int| 0 <= k < texts.len() ==> (#[trigger] texts[k])@ == decode_utf8(covered[k]),
            forall|k: int|
                0 <= k < i ==> (#[trigger] shown[k])@ == numbered_line(
                    (first_line_number + k + 1) as nat,
                    width as nat,
                    seq![' ', '>', '|', ' '],
                    decode_utf8(covered[k]),
                ),
        decreases texts.len() - i,
    {
        let number = decimal_text(first_line_number as u128 + i as u128 + 1);
        proof {
            lemma_decimal_is_ascii((first_line_number + i + 1) as nat);
        }
        let mut line = String::new();
        push_right_aligned(&mut line, number.as_str(), width);
        line.append(" >| ");
        line.append(texts[i]);
        assert(line@ =~= numbered_line(
            (first_line_number + i + 1) as nat,
            width as nat,
            seq![' ', '>', '|', ' '],
            decode_utf8(covered[i as int]),
        ));
        shown.push(line);
        i = i + 1;
    }
    assert(texts_view(shown@) =~= rendered_lines(bytes, range));
    shown
}

impl Report {
    /// Pairs the report with the source text that its range points into.
    pub fn display<'a, 'b>(&'a self, source: &'b str) -> (shown: ReportDisplay<'a, 'b>)
        ensures
            shown.report() == self@,
            shown.source() == source.spec_bytes(),
    {
        ReportDisplay { report: self, source }
    }
}

impl<'a, 'b> ReportDisplay<'a, 'b> {
    /// The report that is shown.
    pub closed spec fn report(&self) -> ReportView {
        self.report@
    }

    /// The bytes of the source text.
    pub closed spec fn source(&self) -> Seq<u8> {
        self.source.spec_bytes()
    }

    /// Whether the report's range can be rendered over the source text.
    pub fn is_renderable(&self) -> (renderable: bool)
        ensures
            renderable == can_render(self.source(), self.report().range),
    {
        can_be_rendered(self.source, self.report.range)
    }

    /// The rendered report: the line `error: ` with the message, then the
    /// lines that show the range, each ended by a line feed.
    pub fn render(&self) -> (text: String)
        requires
            can_render(self.source(), self.report().range),
        ensures
            text@ == rendered_report(self.report().message, self.source(), self.report().range),
    {
        proof {
            reveal_strlit("error: ");
            reveal_strlit("\n");
        }
        let shown = lines_format(self.source, self.report.range);
        let ghost lines = texts_view(shown@);
        let mut text = String::from_str("error: ");
        text.append(self.report.message.as_str());
        text.append("\n");
        let ghost header = text@;
        assert(header =~= seq!['e', 'r', 'r', 'o', 'r', ':', ' '] + self.report().message + seq![
            '\n',
        ]);
        let mut i: usize = 0;
        assert(text@ =~= header + joined(lines, 0));
        while i < shown.len()
            invariant
                i <= shown.len(),
                lines == texts_view(shown@),
                "\n"@ == seq!['\n'],
                text@ == header + joined(lines, i as nat),
            decreases shown.len() - i,
        {
            text.append(shown[i].as_str());
            text.append("\n");
            i = i + 1;
            assert(text@ =~= header + joined(lines, i as nat));
        }
        text
    }

    /// The rendered report, or `None` where the range cannot be rendered
    /// over the source text.
    pub fn try_render(&self) -> (text: Option<String>)
        ensures
            text is Some <==> can_render(self.source(), self.report().range),
            text matches Some(text) ==> text@ == rendered_report(
                self.report().message,
                self.source(),
                self.report().range,
            ),
    {
        if self.is_renderable() {
            Some(self.render())
        } else {
            None
        }
    }
}

} // verus!
