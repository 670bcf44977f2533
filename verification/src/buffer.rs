//! The edit buffer: a file held as lines of hex text, and its dump.
//!
//! A line is the display form of at most sixteen bytes of the file. Lines are
//! replaced without being looked at; a line that does not decode is found when
//! the buffer is next dumped or written out. The dump is kept until a line
//! changes.

use vstd::prelude::*;
use vstd::slice::*;
use crate::codec::{decode_line, decode_line_spec, encode_display, encode_display_spec, upper_digit, upper_digit_of, HexError, SPACE};

verus! {

/// What the editor reports to its user.
#[derive(Clone, Copy, Debug, PartialEq, Eq, Structural)]
pub enum EditError {
    /// The line asked for lies behind the last line.
    LineOutOfRange,
    /// The offset is no hexadecimal number.
    InvalidOffset,
    /// A line does not decode, so the file cannot be written.
    DecodeFailure(HexError),
    /// A line does not decode, so there is no dump.
    CorruptLine,
}

/// Bytes of the file to a line.
pub const LINE_BYTES: usize = 16;

/// Width of the hex column of a row of the dump.
pub const HEX_COLUMN: usize = 48;

/// The most lines a buffer can number: the offset after the last row still
/// fits its counter.
pub const MAX_LINES: usize = 0x7FF_FFFF;

/// The byte of a full stop, which a row shows in place of a line feed.
pub const DOT: u8 = 0x2E;

/// The byte of a line feed.
pub const LINE_FEED: u8 = 0x0A;

/// The byte of a dash.
pub const DASH: u8 = 0x2D;

/// Width of the rule that is drawn under the dump.
pub const RULE_WIDTH: usize = 80;

/// The state of one editing session.
pub struct EditorState {
    /// Path of the file being edited.
    pub file: String,
    /// Offset counter of the dump: where the row after the last one would start.
    pub offset: i32,
    /// Whether a line feed is shown styled.
    pub colors: bool,
    /// The lines, first line first.
    pub hex_lines: Vec<Vec<u8>>,
    /// The dump of the lines as they are, if it has been made since the last
    /// change.
    pub pretty_print: Option<Vec<u8>>,
    /// The styled full stop that stands for a line feed where `colors` is set.
    pub styled_newline: Vec<u8>,
}

/// The mathematical content of an `EditorState`.
pub struct BufferView {
    pub file: Seq<char>,
    pub offset: int,
    pub colors: bool,
    pub lines: Seq<Seq<u8>>,
    pub cache: Option<Seq<u8>>,
    pub styled_newline: Seq<u8>,
}

impl BufferView {
    /// What a row shows in place of a line feed.
    pub open spec fn glyph(self) -> Seq<u8> {
        if self.colors {
            self.styled_newline
        } else {
            seq![DOT]
        }
    }

    /// The buffer is not too long, and a dump that is kept is the dump of the
    /// lines as they are, with the counter where that dump left it.
    pub open spec fn wf(self) -> bool {
        &&& self.lines.len() <= MAX_LINES
        &&& match self.cache {
            Some(dump) => dump_spec(self.lines, self.glyph()) == Ok::<Seq<u8>, EditError>(dump)
                && self.offset == 16 * self.lines.len(),
            None => true,
        }
    }

    /// The buffer after a line was replaced: the kept dump is gone.
    pub open spec fn with_line(self, index: int, text: Seq<u8>) -> BufferView {
        BufferView { lines: self.lines.update(index, text), cache: None, ..self }
    }

    /// The buffer after it was asked for its dump.
    pub open spec fn rendered(self) -> BufferView {
        match dump_spec(self.lines, self.glyph()) {
            Ok(dump) => BufferView { offset: 16 * (self.lines.len() as int), cache: Some(dump), ..self },
            Err(_) => BufferView { offset: 0, ..self },
        }
    }
}

/// The texts of a list of lines.
pub open spec fn lines_of(lines: Seq<Vec<u8>>) -> Seq<Seq<u8>> {
    Seq::new(lines.len(), |i: int| lines[i]@)
}

impl View for EditorState {
    type V = BufferView;

    open spec fn view(&self) -> BufferView {
        BufferView {
            file: self.file@,
            offset: self.offset as int,
            colors: self.colors,
            lines: lines_of(self.hex_lines@),
            cache: match self.pretty_print {
                Some(dump) => Some(dump@),
                None => None,
            },
            styled_newline: self.styled_newline@,
        }
    }
}

/// Number of lines that `len` bytes fill.
pub open spec fn line_count(len: int) -> int {
    (len + 15) / 16
}

/// The bytes of the file that line `i` holds.
pub open spec fn chunk(raw: Seq<u8>, i: int) -> Seq<u8> {
    raw.subrange(16 * i, if 16 * i + 16 <= raw.len() { 16 * i + 16 } else { raw.len() as int })
}

/// The lines of a file: its chunks of sixteen bytes in the display form.
pub open spec fn parse_spec(raw: Seq<u8>) -> Seq<Seq<u8>> {
    Seq::new(line_count(raw.len() as int) as nat, |i: int| encode_display_spec(chunk(raw, i)))
}

/// An offset in eight upper-case hexadecimal digits.
pub open spec fn offset_text(n: int) -> Seq<u8> {
    seq![
        upper_digit(n / 0x1000_0000 % 16),
        upper_digit(n / 0x100_0000 % 16),
        upper_digit(n / 0x10_0000 % 16),
        upper_digit(n / 0x1_0000 % 16),
        upper_digit(n / 0x1000 % 16),
        upper_digit(n / 0x100 % 16),
        upper_digit(n / 0x10 % 16),
        upper_digit(n % 16),
    ]
}

/// The hex column of a row: the line, cut or filled with spaces to the
/// column's width.
pub open spec fn hex_column(line: Seq<u8>) -> Seq<u8> {
    Seq::new(
        HEX_COLUMN as nat,
        |k: int|
            if k < line.len() {
                line[k]
            } else {
                SPACE
            },
    )
}

/// The text column of a row: the bytes, each line feed replaced by `glyph`.
pub open spec fn printable(bytes: Seq<u8>, glyph: Seq<u8>) -> Seq<u8>
    decreases bytes.len(),
{
    if bytes.len() == 0 {
        Seq::empty()
    } else if bytes.last() == LINE_FEED {
        printable(bytes.drop_last(), glyph) + glyph
    } else {
        printable(bytes.drop_last(), glyph).push(bytes.last())
    }
}

/// A row: offset, two spaces, hex column, two spaces, text column, line feed.
#[verifier::opaque]
pub open spec fn row_text(offset: int, line: Seq<u8>, bytes: Seq<u8>, glyph: Seq<u8>) -> Seq<u8> {
    offset_text(offset) + seq![SPACE, SPACE] + hex_column(line) + seq![SPACE, SPACE] + printable(
        bytes,
        glyph,
    ) + seq![LINE_FEED]
}

/// The row of line `index`, which decodes.
pub open spec fn row_spec(index: int, line: Seq<u8>, glyph: Seq<u8>) -> Seq<u8> {
    row_text(16 * index, line, decode_line_spec(line).unwrap(), glyph)
}

/// Whether every line decodes.
pub open spec fn all_decodable(lines: Seq<Seq<u8>>) -> bool {
    forall|i: int| 0 <= i < lines.len() ==> (#[trigger] decode_line_spec(lines[i])) is Ok
}

/// The rows of the lines from `from` up to `to`, one after the other.
pub open spec fn dump_range(lines: Seq<Seq<u8>>, glyph: Seq<u8>, from: int, to: int) -> Seq<u8>
    decreases to - from,
{
    if to <= from {
        Seq::empty()
    } else {
        dump_range(lines, glyph, from, to - 1) + row_spec(to - 1, lines[to - 1], glyph)
    }
}

/// The dump: every line's row, or no dump where a line does not decode.
pub open spec fn dump_spec(lines: Seq<Seq<u8>>, glyph: Seq<u8>) -> Result<Seq<u8>, EditError> {
    if all_decodable(lines) {
        Ok(dump_range(lines, glyph, 0, lines.len() as int))
    } else {
        Err(EditError::CorruptLine)
    }
}

/// The rule under the dump: a row of dashes and a line feed.
pub open spec fn rule_spec() -> Seq<u8> {
    Seq::new(RULE_WIDTH as nat, |k: int| DASH).push(LINE_FEED)
}

/// The bytes that the first `n` lines, which decode, stand for.
pub open spec fn joined(lines: Seq<Seq<u8>>, n: int) -> Seq<u8>
    decreases n,
{
    if n <= 0 {
        Seq::empty()
    } else {
        joined(lines, n - 1) + decode_line_spec(lines[n - 1]).unwrap()
    }
}

/// Whether `i` is the first line that does not decode.
pub open spec fn first_undecodable(lines: Seq<Seq<u8>>, i: int) -> bool {
    &&& 0 <= i < lines.len()
    &&& decode_line_spec(lines[i]) is Err
    &&& forall|k: int| 0 <= k < i ==> (#[trigger] decode_line_spec(lines[k])) is Ok
}

/// Whether `r` is the file that the lines stand for: their bytes in order, or
/// the error of the first line that does not decode.
pub open spec fn is_contents(lines: Seq<Seq<u8>>, r: Result<Seq<u8>, EditError>) -> bool {
    match r {
        Ok(bytes) => all_decodable(lines) && bytes == joined(lines, lines.len() as int),
        Err(e) => exists|i: int|
            first_undecodable(lines, i) && e == EditError::DecodeFailure(
                decode_line_spec(lines[i])->Err_0,
            ),
    }
}

/// Appends `extra` to `out`.
pub fn append_bytes(out: &mut Vec<u8>, extra: &[u8])
    ensures
        final(out)@ == old(out)@ + extra@,
{
    let ghost start = out@;
    let mut i: usize = 0;
    while i < extra.len()
        invariant
            i <= extra.len(),
            out@ == start + extra@.take(i as int),
        decreases extra.len() - i,
    {
        out.push(extra[i]);
        i += 1;
        proof {
            assert(out@ =~= start + extra@.take(i as int));
        }
    }
    proof {
        assert(extra@.take(i as int) =~= extra@);
    }
}

fn push_offset(out: &mut Vec<u8>, offset: i32)
    requires
        0 <= offset,
    ensures
        final(out)@ == old(out)@ + offset_text(offset as int),
{
    let ghost start = out@;
    let n: u32 = offset as u32;
    out.push(upper_digit_of((n / 0x1000_0000 % 16) as u8));
    out.push(upper_digit_of((n / 0x100_0000 % 16) as u8));
    out.push(upper_digit_of((n / 0x10_0000 % 16) as u8));
    out.push(upper_digit_of((n / 0x1_0000 % 16) as u8));
    out.push(upper_digit_of((n / 0x1000 % 16) as u8));
    out.push(upper_digit_of((n / 0x100 % 16) as u8));
    out.push(upper_digit_of((n / 0x10 % 16) as u8));
    out.push(upper_digit_of((n % 16) as u8));
    proof {
        assert(out@ =~= start + offset_text(offset as int));
    }
}

fn push_hex_column(out: &mut Vec<u8>, line: &[u8])
    ensures
        final(out)@ == old(out)@ + hex_column(line@),
{
    let ghost start = out@;
    let mut k: usize = 0;
    while k < HEX_COLUMN
        invariant
            k <= HEX_COLUMN,
            out@ == start + hex_column(line@).take(k as int),
        decreases HEX_COLUMN - k,
    {
        if k < line.len() {
            out.push(line[k]);
        } else {
            out.push(SPACE);
        }
        k += 1;
        proof {
            assert(out@ =~= start + hex_column(line@).take(k as int));
        }
    }
    proof {
        assert(hex_column(line@).take(k as int) =~= hex_column(line@));
    }
}

fn push_printable(out: &mut Vec<u8>, bytes: &[u8], glyph: &[u8])
    ensures
        final(out)@ == old(out)@ + printable(bytes@, glyph@),
{
    let ghost start = out@;
    let mut i: usize = 0;
    while i < bytes.len()
        invariant
            i <= bytes.len(),
            out@ == start + printable(bytes@.take(i as int), glyph@),
        decreases bytes.len() - i,
    {
        proof {
            assert(bytes@.take(i + 1).drop_last() =~= bytes@.take(i as int));
        }
        if bytes[i] == LINE_FEED {
            append_bytes(out, glyph);
        } else {
            out.push(bytes[i]);
        }
        i += 1;
        proof {
            assert(out@ =~= start + printable(bytes@.take(i as int), glyph@));
        }
    }
    proof {
        assert(bytes@.take(i as int) =~= bytes@);
    }
}

/// Appends to `out` the row that starts at `offset`, for a line and the bytes
/// it decodes to.
pub fn push_row(out: &mut Vec<u8>, offset: i32, line: &[u8], bytes: &[u8], glyph: &[u8])
    requires
        0 <= offset,
    ensures
        final(out)@ == old(out)@ + row_text(offset as int, line@, bytes@, glyph@),
{
    let ghost start = out@;
    push_offset(out, offset);
    out.push(SPACE);
    out.push(SPACE);
    push_hex_column(out, line);
    out.push(SPACE);
    out.push(SPACE);
    push_printable(out, bytes, glyph);
    out.push(LINE_FEED);
    proof {
        reveal(row_text);
        assert(out@ =~= start + row_text(offset as int, line@, bytes@, glyph@));
    }
}

/// Cuts a file into lines of sixteen bytes, each in the display form.
pub fn parse(raw: &[u8]) -> (lines: Vec<Vec<u8>>)
    ensures
        lines_of(lines@) == parse_spec(raw@),
{
    let mut lines: Vec<Vec<u8>> = Vec::new();
    let mut start: usize = 0;
    while start < raw.len()
        invariant
            start <= raw.len(),
            start % 16 == 0 || start == raw.len(),
            lines@.len() == line_count(start as int),
            forall|i: int|
                0 <= i < lines@.len() ==> (#[trigger] lines@[i])@ == encode_display_spec(
                    chunk(raw@, i),
                ),
        decreases raw.len() - start,
    {
        let end: usize = if raw.len() - start >= LINE_BYTES {
            start + LINE_BYTES
        } else {
            raw.len()
        };
        let line = encode_display(slice_subrange(raw, start, end));
        proof {
            assert(start == 16 * line_count(start as int));
            assert(raw@.subrange(start as int, end as int) == chunk(raw@, lines@.len() as int));
        }
        lines.push(line);
        start = end;
    }
    proof {
        assert(lines_of(lines@) =~= parse_spec(raw@));
    }
    lines
}

impl EditorState {
    /// A session on `file` with the given lines and no dump yet.
    pub fn new(
        file: String,
        offset: i32,
        hex_lines: Vec<Vec<u8>>,
        colors: bool,
        styled_newline: Vec<u8>,
    ) -> (state: EditorState)
        ensures
            state@ == (BufferView {
                file: file@,
                offset: offset as int,
                colors,
                lines: lines_of(hex_lines@),
                cache: None,
                styled_newline: styled_newline@,
            }),
            state@.wf() <==> hex_lines@.len() <= MAX_LINES,
    {
        EditorState { file, offset, colors, hex_lines, pretty_print: None, styled_newline }
    }

    /// Makes the lines of `contents` the buffer's lines.
    pub fn parse_file(&mut self, contents: &[u8])
        ensures
            final(self)@ == (BufferView {
                lines: parse_spec(contents@),
                cache: None,
                ..old(self)@
            }),
            final(self)@.wf() <==> contents@.len() <= 16 * MAX_LINES,
    {
        self.hex_lines = parse(contents);
        self.pretty_print = None;
    }

    /// What a row shows in place of a line feed.
    pub fn newline_glyph(&self) -> (glyph: Vec<u8>)
        ensures
            glyph@ == self@.glyph(),
    {
        if self.colors {
            slice_to_vec(self.styled_newline.as_slice())
        } else {
            let mut glyph: Vec<u8> = Vec::new();
            glyph.push(DOT);
            glyph
        }
    }

    /// Makes the dump anew. The counter is set back first, and a dump that
    /// was completed leaves it behind the last row.
    pub fn generate_message(&mut self) -> (r: Result<Vec<u8>, EditError>)
        requires
            old(self)@.lines.len() <= MAX_LINES,
        ensures
            match r {
                Ok(dump) => dump_spec(old(self)@.lines, old(self)@.glyph()) == Ok::<
                    Seq<u8>,
                    EditError,
                >(dump@) && final(self)@ == (BufferView {
                    offset: 16 * (old(self)@.lines.len() as int),
                    ..old(self)@
                }),
                Err(e) => dump_spec(old(self)@.lines, old(self)@.glyph()) == Err::<
                    Seq<u8>,
                    EditError,
                >(e) && final(self)@ == (BufferView { offset: 0, ..old(self)@ }),
            },
    {
        self.offset = 0;
        let glyph = self.newline_glyph();
        let ghost lines = self@.lines;
        let ghost before = self@;
        let mut message: Vec<u8> = Vec::new();
        let mut offset: i32 = 0;
        let mut i: usize = 0;
        while i < self.hex_lines.len()
            invariant
                i <= self.hex_lines@.len(),
                self@ == before,
                before == (BufferView { offset: 0, ..old(self)@ }),
                lines == before.lines,
                glyph@ == before.glyph(),
                lines.len() <= MAX_LINES,
                offset == 16 * i,
                message@ == dump_range(lines, glyph@, 0, i as int),
                forall|k: int| 0 <= k < i ==> (#[trigger] decode_line_spec(lines[k])) is Ok,
            decreases self.hex_lines@.len() - i,
        {
            let line = self.hex_lines[i].as_slice();
            proof {
                assert(line@ == lines[i as int]);
            }
            match decode_line(line) {
                Ok(bytes) => {
                    push_row(&mut message, offset, line, bytes.as_slice(), glyph.as_slice());
                    proof {
                        assert(row_spec(i as int, lines[i as int], glyph@) == row_text(
                            offset as int,
                            line@,
                            bytes@,
                            glyph@,
                        ));
                        assert(dump_range(lines, glyph@, 0, i + 1) == dump_range(
                            lines,
                            glyph@,
                            0,
                            i as int,
                        ) + row_spec(i as int, lines[i as int], glyph@));
                    }
                },
                Err(_) => {
                    proof {
                        assert(decode_line_spec(lines[i as int]) is Err);
                        assert(!all_decodable(lines));
                    }
                    return Err(EditError::CorruptLine);
                },
            }
            offset = offset + 16;
            i += 1;
        }
        self.offset = offset;
        Ok(message)
    }

    /// The dump of the buffer: the one kept, or a new one, which is then kept.
    pub fn render(&mut self) -> (r: Result<Vec<u8>, EditError>)
        requires
            old(self)@.wf(),
        ensures
            final(self)@ == old(self)@.rendered(),
            final(self)@.wf(),
            match r {
                Ok(dump) => dump_spec(old(self)@.lines, old(self)@.glyph()) == Ok::<
                    Seq<u8>,
                    EditError,
                >(dump@),
                Err(e) => dump_spec(old(self)@.lines, old(self)@.glyph()) == Err::<
                    Seq<u8>,
                    EditError,
                >(e),
            },
    {
        if let Some(dump) = &self.pretty_print {
            return Ok(slice_to_vec(dump.as_slice()));
        }
        match self.generate_message() {
            Ok(dump) => {
                self.pretty_print = Some(slice_to_vec(dump.as_slice()));
                Ok(dump)
            },
            Err(e) => Err(e),
        }
    }

    /// What is shown of the buffer: its dump and, under it, the rule.
    pub fn screen(&mut self) -> (r: Result<Vec<u8>, EditError>)
        requires
            old(self)@.wf(),
        ensures
            final(self)@ == old(self)@.rendered(),
            final(self)@.wf(),
            match r {
                Ok(text) => dump_spec(old(self)@.lines, old(self)@.glyph()) is Ok && text@
                    == dump_spec(old(self)@.lines, old(self)@.glyph())->Ok_0 + rule_spec(),
                Err(e) => dump_spec(old(self)@.lines, old(self)@.glyph()) == Err::<
                    Seq<u8>,
                    EditError,
                >(e),
            },
    {
        match self.render() {
            Ok(dump) => {
                let mut text = dump;
                let ghost start = text@;
                let mut k: usize = 0;
                while k < RULE_WIDTH
                    invariant
                        k <= RULE_WIDTH,
                        text@ == start + Seq::new(k as nat, |q: int| DASH),
                    decreases RULE_WIDTH - k,
                {
                    text.push(DASH);
                    k += 1;
                    proof {
                        assert(text@ =~= start + Seq::new(k as nat, |q: int| DASH));
                    }
                }
                text.push(LINE_FEED);
                proof {
                    assert(text@ =~= start + rule_spec());
                }
                Ok(text)
            },
            Err(e) => Err(e),
        }
    }

    /// The line with the given number; the first line has number zero and
    /// the number of lines is no line's number.
    pub fn get_line(&self, line_number: usize) -> (r: Result<Vec<u8>, EditError>)
        ensures
            match r {
                Ok(line) => line_number < self@.lines.len() && line@
                    == self@.lines[line_number as int],
                Err(e) => line_number >= self@.lines.len() && e == EditError::LineOutOfRange,
            },
    {
        if line_number >= self.hex_lines.len() {
            Err(EditError::LineOutOfRange)
        } else {
            Ok(slice_to_vec(self.hex_lines[line_number].as_slice()))
        }
    }

    /// Puts `text` in the place of a line, as it is, and drops the kept dump.
    /// Behind the last line nothing is changed.
    pub fn set_line(&mut self, line_number: usize, text: Vec<u8>) -> (r: Result<(), EditError>)
        ensures
            match r {
                Ok(_) => line_number < old(self)@.lines.len() && final(self)@ == old(
                    self,
                )@.with_line(line_number as int, text@),
                Err(e) => line_number >= old(self)@.lines.len() && e == EditError::LineOutOfRange
                    && *final(self) == *old(self),
            },
            old(self)@.wf() ==> final(self)@.wf(),
    {
        if line_number >= self.hex_lines.len() {
            return Err(EditError::LineOutOfRange);
        }
        self.hex_lines.set(line_number, text);
        self.pretty_print = None;
        proof {
            assert(self@.lines =~= old(self)@.lines.update(line_number as int, text@));
        }
        Ok(())
    }

    /// The file that the lines stand for.
    pub fn contents(&self) -> (r: Result<Vec<u8>, EditError>)
        ensures
            is_contents(
                self@.lines,
                match r {
                    Ok(bytes) => Ok(bytes@),
                    Err(e) => Err(e),
                },
            ),
    {
        let ghost lines = self@.lines;
        let mut bytes: Vec<u8> = Vec::new();
        let mut i: usize = 0;
        while i < self.hex_lines.len()
            invariant
                i <= self.hex_lines@.len(),
                lines == lines_of(self.hex_lines@),
                bytes@ == joined(lines, i as int),
                forall|k: int| 0 <= k < i ==> (#[trigger] decode_line_spec(lines[k])) is Ok,
            decreases self.hex_lines@.len() - i,
        {
            let line = self.hex_lines[i].as_slice();
            proof {
                assert(line@ == lines[i as int]);
            }
            match decode_line(line) {
                Ok(part) => {
                    append_bytes(&mut bytes, part.as_slice());
                },
                Err(e) => {
                    proof {
                        assert(first_undecodable(lines, i as int));
                    }
                    return Err(EditError::DecodeFailure(e));
                },
            }
            i += 1;
        }
        Ok(bytes)
    }
}

} // verus!
