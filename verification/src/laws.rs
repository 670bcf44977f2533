//! What holds of the codec, the buffer and its dump, whatever the input.

use vstd::prelude::*;
use crate::buffer::{
    all_decodable, chunk, dump_range, dump_spec, joined, line_count, offset_text, parse_spec,
    row_spec, row_text, BufferView, EditError, MAX_LINES,
};
use crate::command::{is_action, matches_name, parse_offset_spec, word_get, Action};
use crate::fuzzy::{distance_at, distance_spec, lemma_distance_bounds};
use crate::codec::{
    decode_line_spec, decode_spec, encode_spec, lemma_decode_encode, lemma_decode_line_display,
    upper_digit, HexError,
};

verus! {

/// Decoding what was encoded gives the bytes back, for every byte sequence.
pub proof fn law_round_trip(bytes: Seq<u8>)
    ensures
        decode_spec(encode_spec(bytes)) == Ok::<Seq<u8>, HexError>(bytes),
{
    lemma_decode_encode(bytes);
}

/// A file of `n` bytes is cut into `n / 16` lines, rounded up. Each line
/// decodes to its chunk of the file; every line but the last holds sixteen
/// bytes, and the last holds what is left: the remainder of `n` by sixteen,
/// or sixteen where that is zero.
pub proof fn law_chunking(raw: Seq<u8>)
    ensures
        parse_spec(raw).len() == line_count(raw.len() as int),
        16 * (line_count(raw.len() as int) - 1) < raw.len() <= 16 * line_count(raw.len() as int)
            || raw.len() == 0 && line_count(raw.len() as int) == 0,
        forall|i: int|
            0 <= i < parse_spec(raw).len() ==> #[trigger] decode_line_spec(parse_spec(raw)[i])
                == Ok::<Seq<u8>, HexError>(chunk(raw, i)),
        forall|i: int| 0 <= i < parse_spec(raw).len() - 1 ==> (#[trigger] chunk(raw, i)).len() == 16,
        raw.len() > 0 ==> chunk(raw, parse_spec(raw).len() - 1).len() == if raw.len() % 16 == 0 {
            16
        } else {
            raw.len() % 16
        },
{
    assert forall|i: int| 0 <= i < parse_spec(raw).len() implies #[trigger] decode_line_spec(
        parse_spec(raw)[i],
    ) == Ok::<Seq<u8>, HexError>(chunk(raw, i)) by {
        lemma_decode_line_display(chunk(raw, i));
    }
}

/// The first `n` lines of a file stand for its first `16 * n` bytes, or for
/// the whole file where it is shorter.
pub proof fn lemma_joined_prefix(raw: Seq<u8>, n: int)
    requires
        0 <= n <= line_count(raw.len() as int),
    ensures
        joined(parse_spec(raw), n) == raw.take(if 16 * n <= raw.len() {
            16 * n
        } else {
            raw.len() as int
        }),
    decreases n,
{
    if n > 0 {
        lemma_joined_prefix(raw, n - 1);
        lemma_decode_line_display(chunk(raw, n - 1));
        let end = if 16 * n <= raw.len() {
            16 * n
        } else {
            raw.len() as int
        };
        assert(raw.take(16 * (n - 1)) + chunk(raw, n - 1) =~= raw.take(end));
    } else {
        assert(raw.take(0) =~= Seq::<u8>::empty());
    }
}

/// The lines of a file all decode, and together they stand for the file:
/// what is loaded and written back unchanged is the same file.
pub proof fn law_load_then_save(raw: Seq<u8>)
    ensures
        all_decodable(parse_spec(raw)),
        joined(parse_spec(raw), parse_spec(raw).len() as int) == raw,
{
    law_chunking(raw);
    lemma_joined_prefix(raw, line_count(raw.len() as int));
    assert(raw.take(raw.len() as int) =~= raw);
}

/// Asking for the dump twice, with no change between, gives the same answer
/// twice, and the second time leaves the buffer, its offset counter
/// included, as the first left it.
pub proof fn law_render_idempotent(buffer: BufferView)
    requires
        buffer.wf(),
    ensures
        buffer.rendered().wf(),
        dump_spec(buffer.rendered().lines, buffer.rendered().glyph()) == dump_spec(
            buffer.lines,
            buffer.glyph(),
        ),
        buffer.rendered().rendered() == buffer.rendered(),
        buffer.rendered().rendered().offset == buffer.rendered().offset,
{
}

/// The rows of a range of lines are the rows up to a place in it, then the
/// rows from there.
pub proof fn lemma_dump_split(lines: Seq<Seq<u8>>, glyph: Seq<u8>, from: int, mid: int, to: int)
    requires
        from <= mid <= to,
    ensures
        dump_range(lines, glyph, from, to) == dump_range(lines, glyph, from, mid) + dump_range(
            lines,
            glyph,
            mid,
            to,
        ),
    decreases to - mid,
{
    if mid < to {
        lemma_dump_split(lines, glyph, from, mid, to - 1);
        assert(dump_range(lines, glyph, from, to) =~= dump_range(lines, glyph, from, mid)
            + dump_range(lines, glyph, mid, to));
    } else {
        assert(dump_range(lines, glyph, from, to) =~= dump_range(lines, glyph, from, mid)
            + dump_range(lines, glyph, mid, to));
    }
}

/// The rows of a range of lines depend on the lines of that range alone.
pub proof fn lemma_dump_same_lines(
    a: Seq<Seq<u8>>,
    b: Seq<Seq<u8>>,
    glyph: Seq<u8>,
    from: int,
    to: int,
)
    requires
        forall|k: int| from <= k < to ==> a[k] == b[k],
    ensures
        dump_range(a, glyph, from, to) == dump_range(b, glyph, from, to),
    decreases to - from,
{
    if from < to {
        lemma_dump_same_lines(a, b, glyph, from, to - 1);
    }
}

/// After line `index` was replaced by a text that decodes, in a buffer whose
/// other lines decode, the dump is: the rows before it as they were, the row
/// of the new text with the bytes it decodes to, and the rows after it as
/// they were.
pub proof fn law_edit_then_render(buffer: BufferView, index: int, text: Seq<u8>)
    requires
        buffer.wf(),
        0 <= index < buffer.lines.len(),
        decode_line_spec(text) is Ok,
        forall|k: int|
            0 <= k < buffer.lines.len() && k != index ==> (#[trigger] decode_line_spec(
                buffer.lines[k],
            )) is Ok,
    ensures
        buffer.with_line(index, text).wf(),
        buffer.with_line(index, text).rendered().cache == Some(
            dump_range(buffer.lines, buffer.glyph(), 0, index) + row_text(
                16 * index,
                text,
                decode_line_spec(text)->Ok_0,
                buffer.glyph(),
            ) + dump_range(buffer.lines, buffer.glyph(), index + 1, buffer.lines.len() as int),
        ),
{
    let edited = buffer.with_line(index, text);
    let glyph = buffer.glyph();
    let n = buffer.lines.len() as int;
    assert(all_decodable(edited.lines)) by {
        assert forall|k: int| 0 <= k < edited.lines.len() implies (#[trigger] decode_line_spec(
            edited.lines[k],
        )) is Ok by {
            if k != index {
                assert(edited.lines[k] == buffer.lines[k]);
                assert(decode_line_spec(buffer.lines[k]) is Ok);
            }
        }
    }
    lemma_dump_split(edited.lines, glyph, 0, index, n);
    lemma_dump_split(edited.lines, glyph, index, index + 1, n);
    lemma_dump_same_lines(edited.lines, buffer.lines, glyph, 0, index);
    lemma_dump_same_lines(edited.lines, buffer.lines, glyph, index + 1, n);
    assert(dump_range(edited.lines, glyph, index, index + 1) =~= row_spec(
        index,
        edited.lines[index],
        glyph,
    )) by {
        assert(dump_range(edited.lines, glyph, index, index) =~= Seq::<u8>::empty());
    }
}

/// The prefixes of one length of a text are at distance zero.
pub proof fn lemma_distance_same_prefix(a: Seq<char>, i: int)
    requires
        0 <= i <= a.len(),
    ensures
        distance_at(a, a, i, i) == 0,
    decreases i,
{
    if i > 0 {
        lemma_distance_same_prefix(a, i - 1);
        lemma_distance_bounds(a, a, i - 1, i);
        lemma_distance_bounds(a, a, i, i - 1);
        if i > 1 {
            lemma_distance_bounds(a, a, i - 2, i - 2);
        }
    }
}

/// A text is at distance zero from itself, and no distance is negative: a
/// candidate that is the input itself is as near as any.
pub proof fn law_distance_to_self(a: Seq<char>, b: Seq<char>)
    ensures
        distance_spec(a, a) == 0,
        distance_spec(a, b) >= 0,
{
    lemma_distance_same_prefix(a, a.len() as int);
    lemma_distance_bounds(a, b, a.len() as int, b.len() as int);
}

/// `get` with an offset behind the last line is answered with
/// `LineOutOfRange`: the offset is a hexadecimal number, and the line that
/// would hold its byte has a number that no line of the buffer has.
pub proof fn law_get_behind_last_line(
    args: Seq<Seq<char>>,
    lines: Seq<Seq<u8>>,
    names: Seq<Seq<char>>,
    r: Action,
)
    requires
        args.len() >= 2,
        matches_name(args[0], word_get()),
        parse_offset_spec(args[1]) is Some,
        parse_offset_spec(args[1])->0 / 16 >= lines.len(),
        is_action(args, lines, names, r),
    ensures
        r == (Action::Report { error: EditError::LineOutOfRange }),
{
}

/// Row `i` of a dump begins with `16 * i` in eight hexadecimal digits, for
/// every line number that a buffer can hold.
pub proof fn law_row_offset(i: int, line: Seq<u8>, glyph: Seq<u8>)
    requires
        0 <= i < MAX_LINES,
    ensures
        row_spec(i, line, glyph).len() >= 8,
        row_spec(i, line, glyph).take(8) == offset_text(16 * i),
        offset_text(16 * i).len() == 8,
        hex_number(offset_text(16 * i)) == 16 * i,
{
    reveal(row_text);
    assert(row_spec(i, line, glyph).take(8) =~= offset_text(16 * i));
    lemma_offset_number(16 * i);
}

/// The number that upper-case hexadecimal digits write, most significant
/// digit first.
pub open spec fn hex_number(digits: Seq<u8>) -> int
    decreases digits.len(),
{
    if digits.len() == 0 {
        0
    } else {
        16 * hex_number(digits.drop_last()) + crate::codec::digit_value(digits.last()).unwrap()
    }
}

/// A number below sixteen to the eighth is the sum of its eight digits, each
/// times its power of sixteen.
pub proof fn lemma_eight_digits(n: int)
    requires
        0 <= n < 0x1_0000_0000,
    ensures
        n == 16 * (16 * (16 * (16 * (16 * (16 * (16 * (n / 0x1000_0000 % 16) + n / 0x100_0000
            % 16) + n / 0x10_0000 % 16) + n / 0x1_0000 % 16) + n / 0x1000 % 16) + n / 0x100 % 16)
            + n / 0x10 % 16) + n % 16,
{
    let q1 = n / 0x10;
    let q2 = n / 0x100;
    let q3 = n / 0x1000;
    let q4 = n / 0x1_0000;
    let q5 = n / 0x10_0000;
    let q6 = n / 0x100_0000;
    let q7 = n / 0x1000_0000;
    assert(q1 == 16 * q2 + q1 % 16);
    assert(q2 == 16 * q3 + q2 % 16);
    assert(q3 == 16 * q4 + q3 % 16);
    assert(q4 == 16 * q5 + q4 % 16);
    assert(q5 == 16 * q6 + q5 % 16);
    assert(q6 == 16 * q7 + q6 % 16);
    assert(q7 == q7 % 16);
}

/// The value of the digit that was written for a value below sixteen.
pub proof fn lemma_digit_of_digit(v: int)
    requires
        0 <= v < 16,
    ensures
        crate::codec::digit_value(upper_digit(v)) == Some(v),
{
}

/// The eight digits of an offset write that offset.
pub proof fn lemma_offset_number(n: int)
    requires
        0 <= n < 0x1_0000_0000,
    ensures
        hex_number(offset_text(n)) == n,
{
    let t = offset_text(n);
    let t7 = t.drop_last();
    let t6 = t7.drop_last();
    let t5 = t6.drop_last();
    let t4 = t5.drop_last();
    let t3 = t4.drop_last();
    let t2 = t3.drop_last();
    let t1 = t2.drop_last();
    let t0 = t1.drop_last();
    lemma_digit_of_digit(n / 0x1000_0000 % 16);
    lemma_digit_of_digit(n / 0x100_0000 % 16);
    lemma_digit_of_digit(n / 0x10_0000 % 16);
    lemma_digit_of_digit(n / 0x1_0000 % 16);
    lemma_digit_of_digit(n / 0x1000 % 16);
    lemma_digit_of_digit(n / 0x100 % 16);
    lemma_digit_of_digit(n / 0x10 % 16);
    lemma_digit_of_digit(n % 16);
    assert(hex_number(t0) == 0);
    assert(hex_number(t1) == n / 0x1000_0000 % 16);
    assert(hex_number(t2) == 16 * hex_number(t1) + n / 0x100_0000 % 16);
    assert(hex_number(t3) == 16 * hex_number(t2) + n / 0x10_0000 % 16);
    assert(hex_number(t4) == 16 * hex_number(t3) + n / 0x1_0000 % 16);
    assert(hex_number(t5) == 16 * hex_number(t4) + n / 0x1000 % 16);
    assert(hex_number(t6) == 16 * hex_number(t5) + n / 0x100 % 16);
    assert(hex_number(t7) == 16 * hex_number(t6) + n / 0x10 % 16);
    assert(hex_number(t) == 16 * hex_number(t7) + n % 16);
    lemma_eight_digits(n);
}

} // verus!
