//! Byte-wise comparison of two binary inputs.
//!
//! The inputs are read in lockstep, chunk by chunk. Every offset at which the
//! two bytes count as different under the chosen [`ComparisonMode`] becomes one
//! row of a tab-separated table, rendered in the chosen [`ValueOutputFormat`].
//! Where one input is longer than the other, the bytes beyond the end of the
//! shorter one are not compared, and the report tells which input is the
//! larger one.
//!
//! - [`classify`] decides whether two bytes count as different.
//! - [`numeral`] writes numbers in base 2, 10 and 16.
//! - [`table`] writes the header line and the rows.
//! - [`scan`] finds the differences between two buffers.
//! - [`stream`] drives the comparison chunk by chunk.
//! - [`align`] lines up the columns of the finished table.

pub mod align;
pub mod classify;
pub mod numeral;
pub mod scan;
pub mod stream;
pub mod table;

pub use align::{align_table, CellAlignment, COLUMN_PADDING};
pub use classify::{is_bitflipped, is_different, ComparisonMode};
pub use numeral::{push_numeral, Radix};
pub use scan::compare_buffers;
pub use stream::{
    compare_bytes, note_message, Comparator, LargerInput, Report, Step, BUFFER_SIZE,
};
pub use table::{write_header, write_row, ValueOutputFormat};
