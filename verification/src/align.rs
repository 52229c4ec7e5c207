//! Lining up the columns of the table with elastic tabstops.

use vstd::prelude::*;

verus! {

/// Where the text of a cell stands within the width of its column.
#[derive(Clone, Copy, Debug, PartialEq, Eq, Structural)]
pub enum CellAlignment {
    /// At the left edge of the column.
    Left,
    /// In the middle of the column.
    Center,
    /// At the right edge of the column.
    Right,
}

/// The number of spaces that follow every column of the table.
pub const COLUMN_PADDING: usize = 5;

/// What `tabwriter::TabWriter` makes of `text` when it is built with its
/// defaults, then given `padding` and `alignment`, and flushed once after the
/// whole text has been written to it.
pub uninterp spec fn aligned_text(text: Seq<u8>, padding: usize, alignment: CellAlignment) -> Seq<
    u8,
>;

/// Whether `text` is short enough for the widths of its columns, with
/// `padding` added, to be counted in a `usize`.
pub open spec fn can_align(text: Seq<u8>, padding: usize) -> bool {
    text.len() + padding + 2 <= usize::MAX
}

/// Makes a `tabwriter::TabWriter` over an empty vector with `TabWriter::new`,
/// `TabWriter::padding` and `TabWriter::alignment`, hands it `text` through
/// `write_all` and `flush` of its `io::Write`, and returns what the vector
/// then holds.
///
/// This contract is believed, not proved. It claims that the result is a
/// function of the three arguments alone: the writer keeps its text in memory
/// and decides by the bytes it was given. A write to a vector cannot fail, so
/// both results of `io::Write` are dropped. The writer adds the width of the
/// widest column to `padding`; no column is narrower than 2, and no cell is
/// wider in columns than it is long in bytes, which is why `can_align` keeps
/// that sum within a `usize`.
#[verifier::external_body]
fn align_with_tabwriter(text: &[u8], padding: usize, alignment: CellAlignment) -> (aligned: Vec<u8>)
    requires
        can_align(text@, padding),
    ensures
        aligned@ == aligned_text(text@, padding, alignment),
{
    let alignment = match alignment {
        CellAlignment::Left => tabwriter::Alignment::Left,
        CellAlignment::Center => tabwriter::Alignment::Center,
        CellAlignment::Right => tabwriter::Alignment::Right,
    };
    let mut aligned = Vec::new();
    let mut writer = tabwriter::TabWriter::new(&mut aligned).padding(padding).alignment(alignment);
    let _ = std::io::Write::write_all(&mut writer, text);
    let _ = std::io::Write::flush(&mut writer);
    aligned
}

/// Lines up the columns of `table`: every cell is set at the right edge of
/// its column, and [`COLUMN_PADDING`] spaces follow every column.
///
/// Gives nothing where the table is too long for its column widths to be
/// counted.
pub fn align_table(table: &[u8]) -> (aligned: Option<Vec<u8>>)
    ensures
        match aligned {
            Some(text) => can_align(table@, COLUMN_PADDING) && text@ == aligned_text(
                table@,
                COLUMN_PADDING,
                CellAlignment::Right,
            ),
            None => !can_align(table@, COLUMN_PADDING),
        },
{
    if table.len() > usize::MAX - COLUMN_PADDING - 2 {
        return None;
    }
    Some(align_with_tabwriter(table, COLUMN_PADDING, CellAlignment::Right))
}

} // verus!
