//! The table of differences as tab-separated text: a header line, then one
//! line for each difference.

use crate::numeral::{
    digits, lemma_digits_denote, lemma_padding_keeps_value, numeral, numeral_value, push_numeral,
    Radix,
};
use vstd::prelude::*;
use vstd::string::StringSliceAdditionalSpecFns;

verus! {

/// The ASCII horizontal tab, which ends every cell.
pub const TAB: u8 = 9;

/// The ASCII line feed, which ends every line.
pub const LINE_FEED: u8 = 10;

/// How offsets and byte values are written.
#[derive(Clone, Copy, Debug, PartialEq, Eq, Structural)]
pub enum ValueOutputFormat {
    /// Offset and values in lowercase hexadecimal.
    Hex,
    /// Offset and values in decimal.
    Decimal,
    /// Offset in hexadecimal, values as eight binary digits.
    Binary,
    /// Offset and values each in decimal and then in hexadecimal.
    Combined,
}

/// One difference: an offset and the byte that each input holds there.
pub struct Difference {
    /// The absolute position of the two bytes.
    pub offset: nat,
    /// The byte of the first input.
    pub first: u8,
    /// The byte of the second input.
    pub second: u8,
}

/// A number in lowercase hexadecimal.
pub open spec fn hexadecimal(n: nat) -> Seq<u8> {
    numeral(n, Radix::Hexadecimal, 0)
}

/// A number in decimal.
pub open spec fn decimal(n: nat) -> Seq<u8> {
    numeral(n, Radix::Decimal, 0)
}

/// A byte as eight binary digits.
pub open spec fn binary_octet(value: u8) -> Seq<u8> {
    numeral(value as nat, Radix::Binary, 8)
}

/// The titles of the columns.
pub open spec fn header_cells(format: ValueOutputFormat) -> Seq<Seq<u8>> {
    match format {
        ValueOutputFormat::Combined => seq![
            "OFFSET".spec_bytes(),
            "Hex".spec_bytes(),
            "FILE1".spec_bytes(),
            "Hex".spec_bytes(),
            "FILE2".spec_bytes(),
            "Hex".spec_bytes(),
        ],
        _ => seq!["OFFSET".spec_bytes(), "FILE1".spec_bytes(), "FILE2".spec_bytes()],
    }
}

/// The cells of the line that reports `difference`.
pub open spec fn row_cells(difference: Difference, format: ValueOutputFormat) -> Seq<Seq<u8>> {
    let Difference { offset, first, second } = difference;
    match format {
        ValueOutputFormat::Hex => seq![
            hexadecimal(offset),
            hexadecimal(first as nat),
            hexadecimal(second as nat),
        ],
        ValueOutputFormat::Decimal => seq![
            decimal(offset),
            decimal(first as nat),
            decimal(second as nat),
        ],
        ValueOutputFormat::Binary => seq![
            hexadecimal(offset),
            binary_octet(first),
            binary_octet(second),
        ],
        ValueOutputFormat::Combined => seq![
            decimal(offset),
            hexadecimal(offset),
            decimal(first as nat),
            hexadecimal(first as nat),
            decimal(second as nat),
            hexadecimal(second as nat),
        ],
    }
}

/// The cells one after the other, each followed by a tab.
pub open spec fn cells_text(cells: Seq<Seq<u8>>) -> Seq<u8> {
    cells.map_values(|cell: Seq<u8>| cell.push(TAB)).flatten()
}

/// A line of the table: its cells, each followed by a tab, then a line feed.
pub open spec fn line_text(cells: Seq<Seq<u8>>) -> Seq<u8> {
    cells_text(cells).push(LINE_FEED)
}

/// The header line.
pub open spec fn header_text(format: ValueOutputFormat) -> Seq<u8> {
    line_text(header_cells(format))
}

/// The line that reports `difference`.
pub open spec fn row_text(difference: Difference, format: ValueOutputFormat) -> Seq<u8> {
    line_text(row_cells(difference, format))
}

/// The lines that report `differences`, in their order.
pub open spec fn rows_text(differences: Seq<Difference>, format: ValueOutputFormat) -> Seq<u8> {
    differences.map_values(|difference: Difference| row_text(difference, format)).flatten()
}

/// A byte written as a binary octet is eight characters long.
pub proof fn lemma_binary_octet_length(value: u8)
    ensures
        binary_octet(value).len() == 8,
{
    reveal_with_fuel(digits, 8);
}

/// Every cell of a row is a numeral of what its column stands for: read in
/// the base of its column, it gives back the offset or the byte.
pub proof fn lemma_row_denotes(difference: Difference, format: ValueOutputFormat)
    ensures
        ({
            let cells = row_cells(difference, format);
            let Difference { offset, first, second } = difference;
            match format {
                ValueOutputFormat::Hex => {
                    &&& cells.len() == 3
                    &&& numeral_value(cells[0], 16) == offset
                    &&& numeral_value(cells[1], 16) == first
                    &&& numeral_value(cells[2], 16) == second
                },
                ValueOutputFormat::Decimal => {
                    &&& cells.len() == 3
                    &&& numeral_value(cells[0], 10) == offset
                    &&& numeral_value(cells[1], 10) == first
                    &&& numeral_value(cells[2], 10) == second
                },
                ValueOutputFormat::Binary => {
                    &&& cells.len() == 3
                    &&& numeral_value(cells[0], 16) == offset
                    &&& cells[1].len() == 8
                    &&& numeral_value(cells[1], 2) == first
                    &&& cells[2].len() == 8
                    &&& numeral_value(cells[2], 2) == second
                },
                ValueOutputFormat::Combined => {
                    &&& cells.len() == 6
                    &&& numeral_value(cells[0], 10) == offset
                    &&& numeral_value(cells[1], 16) == offset
                    &&& numeral_value(cells[2], 10) == first
                    &&& numeral_value(cells[3], 16) == first
                    &&& numeral_value(cells[4], 10) == second
                    &&& numeral_value(cells[5], 16) == second
                },
            }
        }),
{
    let Difference { offset, first, second } = difference;
    lemma_digits_denote(offset, 10);
    lemma_digits_denote(offset, 16);
    lemma_digits_denote(first as nat, 2);
    lemma_digits_denote(first as nat, 10);
    lemma_digits_denote(first as nat, 16);
    lemma_digits_denote(second as nat, 2);
    lemma_digits_denote(second as nat, 10);
    lemma_digits_denote(second as nat, 16);
    lemma_padding_keeps_value(digits(first as nat, 2), 8, 2);
    lemma_padding_keeps_value(digits(second as nat, 2), 8, 2);
    lemma_binary_octet_length(first);
    lemma_binary_octet_length(second);
}

/// Writing one more cell adds that cell and a tab to the text.
pub proof fn lemma_cell_appended(cells: Seq<Seq<u8>>, cell: Seq<u8>)
    ensures
        cells_text(cells.push(cell)) == cells_text(cells) + cell.push(TAB),
{
    let tabbed = |cell: Seq<u8>| cell.push(TAB);
    assert(cells.push(cell).map_values(tabbed) =~= cells.map_values(tabbed).push(cell.push(TAB)));
    cells.map_values(tabbed).lemma_flatten_push(cell.push(TAB));
}

/// Reporting one more difference adds its line to the text.
pub proof fn lemma_row_appended(
    differences: Seq<Difference>,
    difference: Difference,
    format: ValueOutputFormat,
)
    ensures
        rows_text(differences.push(difference), format) == rows_text(differences, format)
            + row_text(difference, format),
{
    let line = |difference: Difference| row_text(difference, format);
    assert(differences.push(difference).map_values(line) =~= differences.map_values(line).push(
        row_text(difference, format),
    ));
    differences.map_values(line).lemma_flatten_push(row_text(difference, format));
}

/// The lines of two runs of differences are the lines of the first run and
/// then those of the second.
pub proof fn lemma_rows_of_parts(
    head: Seq<Difference>,
    tail: Seq<Difference>,
    format: ValueOutputFormat,
)
    ensures
        rows_text(head + tail, format) == rows_text(head, format) + rows_text(tail, format),
{
    let line = |difference: Difference| row_text(difference, format);
    assert((head + tail).map_values(line) =~= head.map_values(line) + tail.map_values(line));
    vstd::seq_lib::lemma_flatten_concat(head.map_values(line), tail.map_values(line));
}

/// No differences make no lines.
pub proof fn lemma_no_rows(format: ValueOutputFormat)
    ensures
        rows_text(Seq::<Difference>::empty(), format) == Seq::<u8>::empty(),
{
    let line = |difference: Difference| row_text(difference, format);
    assert(Seq::<Difference>::empty().map_values(line) =~= Seq::<Seq<u8>>::empty());
}

/// Appends `bytes` to `out`.
pub(crate) fn push_bytes(out: &mut Vec<u8>, bytes: &[u8])
    ensures
        final(out)@ == old(out)@ + bytes@,
{
    let mut i: usize = 0;
    while i < bytes.len()
        invariant
            i <= bytes.len(),
            out@ == old(out)@ + bytes@.take(i as int),
        decreases bytes.len() - i,
    {
        out.push(bytes[i]);
        i = i + 1;
    }
}

/// The cells of a line that have been written so far, and the text before them.
struct Line {
    start: Ghost<Seq<u8>>,
    cells: Ghost<Seq<Seq<u8>>>,
}

impl Line {
    /// Whether `out` holds the text before the line and then the cells written.
    spec fn written_to(&self, out: Seq<u8>) -> bool {
        out == self.start@ + cells_text(self.cells@)
    }

    /// Begins a line at the end of `out`.
    fn begin(out: &Vec<u8>) -> (line: Line)
        ensures
            line.written_to(out@),
            line.start@ == out@,
            line.cells@ == Seq::<Seq<u8>>::empty(),
    {
        Line { start: Ghost(out@), cells: Ghost(Seq::empty()) }
    }

    /// Writes a cell that holds `bytes`.
    fn text_cell(&mut self, out: &mut Vec<u8>, bytes: &[u8])
        requires
            old(self).written_to(old(out)@),
        ensures
            final(self).written_to(final(out)@),
            final(self).start@ == old(self).start@,
            final(self).cells@ == old(self).cells@.push(bytes@),
    {
        push_bytes(out, bytes);
        out.push(TAB);
        proof {
            lemma_cell_appended(self.cells@, bytes@);
            self.cells = Ghost(self.cells@.push(bytes@));
            assert(out@ =~= self.start@ + cells_text(self.cells@));
        }
    }

    /// Writes a cell that holds a numeral.
    fn numeral_cell(&mut self, out: &mut Vec<u8>, value: usize, radix: Radix, min_width: usize)
        requires
            old(self).written_to(old(out)@),
        ensures
            final(self).written_to(final(out)@),
            final(self).start@ == old(self).start@,
            final(self).cells@ == old(self).cells@.push(
                numeral(value as nat, radix, min_width as nat),
            ),
    {
        push_numeral(out, value, radix, min_width);
        out.push(TAB);
        proof {
            let cell = numeral(value as nat, radix, min_width as nat);
            lemma_cell_appended(self.cells@, cell);
            self.cells = Ghost(self.cells@.push(cell));
            assert(out@ =~= self.start@ + cells_text(self.cells@));
        }
    }

    /// Ends the line.
    fn end(self, out: &mut Vec<u8>)
        requires
            self.written_to(old(out)@),
        ensures
            final(out)@ == self.start@ + line_text(self.cells@),
    {
        out.push(LINE_FEED);
    }
}

/// Appends the header line to `out`.
pub fn write_header(out: &mut Vec<u8>, format: &ValueOutputFormat)
    ensures
        final(out)@ == old(out)@ + header_text(*format),
{
    let mut line = Line::begin(out);
    match format {
        ValueOutputFormat::Combined => {
            line.text_cell(out, "OFFSET".as_bytes());
            line.text_cell(out, "Hex".as_bytes());
            line.text_cell(out, "FILE1".as_bytes());
            line.text_cell(out, "Hex".as_bytes());
            line.text_cell(out, "FILE2".as_bytes());
            line.text_cell(out, "Hex".as_bytes());
        },
        _ => {
            line.text_cell(out, "OFFSET".as_bytes());
            line.text_cell(out, "FILE1".as_bytes());
            line.text_cell(out, "FILE2".as_bytes());
        },
    }
    assert(line.cells@ =~= header_cells(*format));
    line.end(out);
}

/// Appends to `out` the line that reports the bytes `first` and `second` at `offset`.
pub fn write_row(
    out: &mut Vec<u8>,
    offset: usize,
    first: u8,
    second: u8,
    format: &ValueOutputFormat,
)
    ensures
        final(out)@ == old(out)@ + row_text(
            Difference { offset: offset as nat, first, second },
            *format,
        ),
{
    let mut line = Line::begin(out);
    match format {
        ValueOutputFormat::Hex => {
            line.numeral_cell(out, offset, Radix::Hexadecimal, 0);
            line.numeral_cell(out, first as usize, Radix::Hexadecimal, 0);
            line.numeral_cell(out, second as usize, Radix::Hexadecimal, 0);
        },
        ValueOutputFormat::Decimal => {
            line.numeral_cell(out, offset, Radix::Decimal, 0);
            line.numeral_cell(out, first as usize, Radix::Decimal, 0);
            line.numeral_cell(out, second as usize, Radix::Decimal, 0);
        },
        ValueOutputFormat::Binary => {
            line.numeral_cell(out, offset, Radix::Hexadecimal, 0);
            line.numeral_cell(out, first as usize, Radix::Binary, 8);
            line.numeral_cell(out, second as usize, Radix::Binary, 8);
        },
        ValueOutputFormat::Combined => {
            line.numeral_cell(out, offset, Radix::Decimal, 0);
            line.numeral_cell(out, offset, Radix::Hexadecimal, 0);
            line.numeral_cell(out, first as usize, Radix::Decimal, 0);
            line.numeral_cell(out, first as usize, Radix::Hexadecimal, 0);
            line.numeral_cell(out, second as usize, Radix::Decimal, 0);
            line.numeral_cell(out, second as usize, Radix::Hexadecimal, 0);
        },
    }
    assert(line.cells@ =~= row_cells(
        Difference { offset: offset as nat, first, second },
        *format,
    ));
    line.end(out);
}

} // verus!
