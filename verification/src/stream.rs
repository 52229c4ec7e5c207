//! Comparing two inputs chunk by chunk.
//!
//! A [`Comparator`] is fed one chunk of each input at a time. It keeps the
//! offset of the next chunk and the table written so far, and it stops at the
//! first chunk that is shorter than [`BUFFER_SIZE`]: a short chunk means that
//! an input has ended.

use crate::align::{aligned_text, CellAlignment};
use crate::classify::{differs, mode_of_switch, ComparisonMode};
use crate::scan::{
    common_length, compare_buffers, differences, lemma_difference_is_reported,
    lemma_differences_of_parts, lemma_equal_bytes_no_differences, lemma_excess_is_ignored,
    lemma_no_differences, lemma_single_difference,
};
use crate::table::{
    header_text, lemma_no_rows, lemma_row_appended, lemma_rows_of_parts, push_bytes, row_text,
    rows_text, write_header, Difference, ValueOutputFormat, LINE_FEED,
};
use vstd::prelude::*;
use vstd::string::StringSliceAdditionalSpecFns;

verus! {

/// The number of bytes that are asked of each input at a time.
pub const BUFFER_SIZE: usize = 1024;

/// Which of the two inputs is the larger one.
#[derive(Clone, Copy, Debug, PartialEq, Eq, Structural)]
pub enum LargerInput {
    /// Both inputs have the same length.
    Neither,
    /// The first input is larger than the second.
    First,
    /// The second input is larger than the first.
    Second,
}

/// Which input is the larger one, given the lengths of both.
pub open spec fn larger_input(first_len: nat, second_len: nat) -> LargerInput {
    if first_len < second_len {
        LargerInput::Second
    } else if first_len > second_len {
        LargerInput::First
    } else {
        LargerInput::Neither
    }
}

/// The whole table for two inputs: the header line, then one line for each
/// difference, offsets counted from zero.
pub open spec fn table_text(
    first: Seq<u8>,
    second: Seq<u8>,
    format: ValueOutputFormat,
    mode: ComparisonMode,
) -> Seq<u8> {
    header_text(format) + rows_text(differences(first, second, 0, mode), format)
}

/// What a comparison has found.
pub struct Report {
    /// The table as tab-separated text.
    pub table: Vec<u8>,
    /// Which input is the larger one.
    pub larger: LargerInput,
}

impl Report {
    /// Whether this is the report on the inputs `first` and `second`.
    pub open spec fn describes(
        &self,
        first: Seq<u8>,
        second: Seq<u8>,
        format: ValueOutputFormat,
        mode: ComparisonMode,
    ) -> bool {
        &&& self.table@ == table_text(first, second, format, mode)
        &&& self.larger == larger_input(first.len(), second.len())
    }
}

/// What a comparator has seen and written so far.
pub struct Progress {
    /// The format of the table.
    pub format: ValueOutputFormat,
    /// The mode under which bytes are compared.
    pub mode: ComparisonMode,
    /// The bytes of the first input that have been compared.
    pub first: Seq<u8>,
    /// The bytes of the second input that have been compared.
    pub second: Seq<u8>,
    /// The table written so far.
    pub table: Seq<u8>,
}

impl Progress {
    /// The offset of the next chunk: the number of bytes compared so far.
    pub open spec fn offset(self) -> nat {
        self.first.len()
    }

    /// Only full chunks have been compared, as many of one input as of the
    /// other, and the table holds the header and their differences.
    pub open spec fn consistent(self) -> bool {
        &&& self.first.len() == self.second.len()
        &&& self.first.len() % (BUFFER_SIZE as nat) == 0
        &&& self.table == table_text(self.first, self.second, self.format, self.mode)
    }
}

/// A comparison of two inputs that is under way.
pub struct Comparator {
    format: ValueOutputFormat,
    bitflip_only: bool,
    offset: usize,
    table: Vec<u8>,
    first: Ghost<Seq<u8>>,
    second: Ghost<Seq<u8>>,
}

/// What a comparator has become after a pair of chunks.
pub enum Step {
    /// Both chunks were full: the comparison goes on with the next pair.
    Continue(Comparator),
    /// A chunk was short: the comparison is over.
    Finished(Report),
}

impl View for Comparator {
    type V = Progress;

    closed spec fn view(&self) -> Progress {
        Progress {
            format: self.format,
            mode: mode_of_switch(self.bitflip_only),
            first: self.first@,
            second: self.second@,
            table: self.table@,
        }
    }
}

impl Comparator {
    #[verifier::type_invariant]
    spec fn holds_together(&self) -> bool {
        &&& self.first@.len() == self.offset
        &&& self.view().consistent()
    }

    /// Begins a comparison: nothing is compared yet, and the table holds the
    /// header line.
    pub fn new(format: ValueOutputFormat, single_bitflip_only: bool) -> (comparator: Comparator)
        ensures
            comparator@.format == format,
            comparator@.mode == mode_of_switch(single_bitflip_only),
            comparator@.first == Seq::<u8>::empty(),
            comparator@.second == Seq::<u8>::empty(),
            comparator@.table == header_text(format),
            comparator@.consistent(),
    {
        let mut table: Vec<u8> = Vec::new();
        write_header(&mut table, &format);
        proof {
            let mode = mode_of_switch(single_bitflip_only);
            lemma_equal_bytes_no_differences(Seq::<u8>::empty(), Seq::<u8>::empty(), 0, mode);
            lemma_no_rows(format);
        }
        Comparator {
            format,
            bitflip_only: single_bitflip_only,
            offset: 0,
            table,
            first: Ghost(Seq::empty()),
            second: Ghost(Seq::empty()),
        }
    }

    /// The offset of the next chunk.
    pub fn offset(&self) -> (offset: usize)
        ensures
            offset == self@.offset(),
            self@.consistent(),
    {
        proof {
            use_type_invariant(self);
        }
        self.offset
    }

    /// Compares the next chunk of each input, as far as both reach, and adds
    /// the differences to the table.
    ///
    /// Where both chunks are full the comparison goes on and the offset moves
    /// by one chunk. Where a chunk is short the comparison is over: the report
    /// holds the table and tells which input still had bytes when the other
    /// ended.
    pub fn feed(self, chunk1: &[u8], chunk2: &[u8]) -> (step: Step)
        requires
            chunk1.len() <= BUFFER_SIZE,
            chunk2.len() <= BUFFER_SIZE,
            self@.offset() + chunk1.len() <= usize::MAX || self@.offset() + chunk2.len()
                <= usize::MAX,
        ensures
            self@.consistent(),
            match step {
                Step::Continue(next) => {
                    &&& chunk1.len() == BUFFER_SIZE
                    &&& chunk2.len() == BUFFER_SIZE
                    &&& next@.format == self@.format
                    &&& next@.mode == self@.mode
                    &&& next@.first == self@.first + chunk1@
                    &&& next@.second == self@.second + chunk2@
                    &&& next@.consistent()
                },
                Step::Finished(report) => {
                    &&& common_length(chunk1@, chunk2@) < BUFFER_SIZE
                    &&& report.describes(
                        self@.first + chunk1@,
                        self@.second + chunk2@,
                        self@.format,
                        self@.mode,
                    )
                },
            },
    {
        proof {
            use_type_invariant(&self);
        }
        let Comparator { format, bitflip_only, offset, mut table, first, second } = self;
        let n1 = chunk1.len();
        let n2 = chunk2.len();
        let n = if n1 <= n2 {
            n1
        } else {
            n2
        };
        if n != 0 {
            compare_buffers(&mut table, chunk1, chunk2, offset, &format, bitflip_only);
        }
        proof {
            let mode = mode_of_switch(bitflip_only);
            if n == 0 {
                lemma_equal_bytes_no_differences(chunk1@, chunk2@, offset as nat, mode);
                lemma_no_rows(format);
            }
            lemma_differences_of_parts(first@, chunk1@, second@, chunk2@, 0, mode);
            lemma_rows_of_parts(
                differences(first@, second@, 0, mode),
                differences(chunk1@, chunk2@, offset as nat, mode),
                format,
            );
            assert(table@ =~= table_text(first@ + chunk1@, second@ + chunk2@, format, mode));
        }
        if n < BUFFER_SIZE {
            let larger = if n1 < n2 {
                LargerInput::Second
            } else if n1 > n2 {
                LargerInput::First
            } else {
                LargerInput::Neither
            };
            Step::Finished(Report { table, larger })
        } else {
            Step::Continue(
                Comparator {
                    format,
                    bitflip_only,
                    offset: offset + BUFFER_SIZE,
                    table,
                    first: Ghost(first@ + chunk1@),
                    second: Ghost(second@ + chunk2@),
                },
            )
        }
    }
}

/// The chunk of `input` that begins at `offset`: up to [`BUFFER_SIZE`] bytes,
/// fewer where the input ends before that.
fn chunk_at(input: &[u8], offset: usize) -> (chunk: &[u8])
    requires
        offset <= input.len(),
    ensures
        chunk@ == input@.subrange(
            offset as int,
            if input.len() - offset < BUFFER_SIZE {
                input.len() as int
            } else {
                offset + BUFFER_SIZE
            },
        ),
{
    let end = if input.len() - offset < BUFFER_SIZE {
        input.len()
    } else {
        offset + BUFFER_SIZE
    };
    &input[offset..end]
}

/// Compares two inputs that are held in memory, chunk by chunk, and reports
/// every difference between them as far as both reach.
pub fn compare_bytes(
    first: &[u8],
    second: &[u8],
    format: ValueOutputFormat,
    single_bitflip_only: bool,
) -> (report: Report)
    ensures
        report.describes(first@, second@, format, mode_of_switch(single_bitflip_only)),
{
    let ghost mode = mode_of_switch(single_bitflip_only);
    let mut comparator = Comparator::new(format, single_bitflip_only);
    loop
        invariant
            mode == mode_of_switch(single_bitflip_only),
            comparator@.format == format,
            comparator@.mode == mode,
            comparator@.offset() <= first.len(),
            comparator@.offset() <= second.len(),
            comparator@.first == first@.take(comparator@.offset() as int),
            comparator@.second == second@.take(comparator@.offset() as int),
        decreases first.len() - comparator@.offset(),
    {
        let offset = comparator.offset();
        let chunk1 = chunk_at(first, offset);
        let chunk2 = chunk_at(second, offset);
        let ghost seen1 = comparator@.first;
        let ghost seen2 = comparator@.second;
        match comparator.feed(chunk1, chunk2) {
            Step::Continue(next) => {
                comparator = next;
            },
            Step::Finished(report) => {
                proof {
                    let kept1 = offset + chunk1.len();
                    let kept2 = offset + chunk2.len();
                    assert(seen1 + chunk1@ =~= first@.take(kept1));
                    assert(seen2 + chunk2@ =~= second@.take(kept2));
                    lemma_excess_is_ignored(first@, second@, 0, mode, kept1, kept2);
                }
                return report;
            },
        }
    }
}

/// The line that says that the second file is the larger one.
pub open spec fn second_is_larger_text(file1: Seq<u8>, file2: Seq<u8>) -> Seq<u8> {
    ("NOTE: The second file (".spec_bytes() + file2
        + ") is larger than the first file (".spec_bytes() + file1 + ").".spec_bytes()).push(
        LINE_FEED,
    )
}

/// The line that says that the first file is the larger one.
pub open spec fn first_is_larger_text(file1: Seq<u8>, file2: Seq<u8>) -> Seq<u8> {
    ("NOTE: The first file (".spec_bytes() + file1
        + ") is larger than the second file (".spec_bytes() + file2 + ").".spec_bytes()).push(
        LINE_FEED,
    )
}

/// The note on the larger input, as a line of text that names both files:
/// nothing where both inputs have the same length.
pub open spec fn note_text(larger: LargerInput, file1: Seq<u8>, file2: Seq<u8>) -> Option<Seq<u8>> {
    match larger {
        LargerInput::Neither => None,
        LargerInput::Second => Some(second_is_larger_text(file1, file2)),
        LargerInput::First => Some(first_is_larger_text(file1, file2)),
    }
}

/// Writes the note that tells which of the two named files is the larger one.
pub fn note_message(larger: LargerInput, file1: &str, file2: &str) -> (note: Option<Vec<u8>>)
    ensures
        match note {
            Some(line) => note_text(larger, file1.spec_bytes(), file2.spec_bytes()) == Some(line@),
            None => note_text(larger, file1.spec_bytes(), file2.spec_bytes()) is None,
        },
{
    let mut line: Vec<u8> = Vec::new();
    match larger {
        LargerInput::Neither => {
            return None;
        },
        LargerInput::Second => {
            push_bytes(&mut line, "NOTE: The second file (".as_bytes());
            push_bytes(&mut line, file2.as_bytes());
            push_bytes(&mut line, ") is larger than the first file (".as_bytes());
            push_bytes(&mut line, file1.as_bytes());
        },
        LargerInput::First => {
            push_bytes(&mut line, "NOTE: The first file (".as_bytes());
            push_bytes(&mut line, file1.as_bytes());
            push_bytes(&mut line, ") is larger than the second file (".as_bytes());
            push_bytes(&mut line, file2.as_bytes());
        },
    }
    push_bytes(&mut line, ").".as_bytes());
    line.push(LINE_FEED);
    Some(line)
}

/// Two inputs that hold the same bytes give the header line alone, and no
/// note on a larger input, whatever the mode and the format.
pub proof fn lemma_identical_inputs(
    report: Report,
    input: Seq<u8>,
    format: ValueOutputFormat,
    mode: ComparisonMode,
    file1: Seq<u8>,
    file2: Seq<u8>,
)
    requires
        report.describes(input, input, format, mode),
    ensures
        report.table@ == header_text(format),
        report.larger == LargerInput::Neither,
        note_text(report.larger, file1, file2) is None,
{
    lemma_equal_bytes_no_differences(input, input, 0, mode);
    lemma_no_rows(format);
}

/// Two inputs of one length that disagree at the offset `k` alone, in two
/// bytes that count as different, give the header line and one row, which
/// holds `k` and the two bytes found there.
pub proof fn lemma_one_differing_byte(
    report: Report,
    first: Seq<u8>,
    second: Seq<u8>,
    format: ValueOutputFormat,
    mode: ComparisonMode,
    k: int,
)
    requires
        report.describes(first, second, format, mode),
        first.len() == second.len(),
        0 <= k < first.len(),
        forall|i: int| 0 <= i < first.len() && i != k ==> #[trigger] first[i] == second[i],
        differs(first[k], second[k], mode),
    ensures
        report.table@ == header_text(format) + row_text(
            Difference { offset: k as nat, first: first[k], second: second[k] },
            format,
        ),
        report.larger == LargerInput::Neither,
{
    let only = Difference { offset: k as nat, first: first[k], second: second[k] };
    lemma_single_difference(first, second, 0, mode, k);
    lemma_no_rows(format);
    lemma_row_appended(Seq::<Difference>::empty(), only, format);
}

/// Two inputs of one length that disagree at the offset `k` alone, in two
/// bytes that do not count as different under the mode, give the header line
/// alone: in the single-bit-flip mode a pair that is more than one bit apart
/// is passed over.
pub proof fn lemma_one_unreported_byte(
    report: Report,
    first: Seq<u8>,
    second: Seq<u8>,
    format: ValueOutputFormat,
    mode: ComparisonMode,
    k: int,
)
    requires
        report.describes(first, second, format, mode),
        first.len() == second.len(),
        0 <= k < first.len(),
        forall|i: int| 0 <= i < first.len() && i != k ==> #[trigger] first[i] == second[i],
        !differs(first[k], second[k], mode),
    ensures
        report.table@ == header_text(format),
        report.larger == LargerInput::Neither,
{
    assert forall|i: int| 0 <= i < common_length(first, second) implies !differs(
        #[trigger] first[i],
        second[i],
        mode,
    ) by {
        if i != k {
            crate::classify::lemma_equal_bytes_never_differ(first[i], mode);
        }
    }
    lemma_no_differences(first, second, 0, mode);
    lemma_no_rows(format);
}

/// A first input that is shorter than the second and holds the same bytes
/// as far as it reaches gives the header line alone, and the note that the
/// second file is the larger one.
pub proof fn lemma_shorter_first_input(
    report: Report,
    first: Seq<u8>,
    second: Seq<u8>,
    format: ValueOutputFormat,
    mode: ComparisonMode,
    file1: Seq<u8>,
    file2: Seq<u8>,
)
    requires
        report.describes(first, second, format, mode),
        first.len() < second.len(),
        forall|i: int| 0 <= i < first.len() ==> #[trigger] first[i] == second[i],
    ensures
        report.table@ == header_text(format),
        report.larger == LargerInput::Second,
        note_text(report.larger, file1, file2) == Some(second_is_larger_text(file1, file2)),
{
    lemma_equal_bytes_no_differences(first, second, 0, mode);
    lemma_no_rows(format);
}

/// A second input that is shorter than the first and holds the same bytes
/// as far as it reaches gives the header line alone, and the note that the
/// first file is the larger one.
pub proof fn lemma_shorter_second_input(
    report: Report,
    first: Seq<u8>,
    second: Seq<u8>,
    format: ValueOutputFormat,
    mode: ComparisonMode,
    file1: Seq<u8>,
    file2: Seq<u8>,
)
    requires
        report.describes(first, second, format, mode),
        second.len() < first.len(),
        forall|i: int| 0 <= i < second.len() ==> #[trigger] first[i] == second[i],
    ensures
        report.table@ == header_text(format),
        report.larger == LargerInput::First,
        note_text(report.larger, file1, file2) == Some(first_is_larger_text(file1, file2)),
{
    lemma_equal_bytes_no_differences(first, second, 0, mode);
    lemma_no_rows(format);
}

/// Two reports on the same inputs, in the same mode and format, hold the same
/// table and the same note, and their tables are lined up to the same text.
pub proof fn lemma_reports_agree(
    one: Report,
    other: Report,
    first: Seq<u8>,
    second: Seq<u8>,
    format: ValueOutputFormat,
    mode: ComparisonMode,
    padding: usize,
    alignment: CellAlignment,
)
    requires
        one.describes(first, second, format, mode),
        other.describes(first, second, format, mode),
    ensures
        one.table@ == other.table@,
        one.larger == other.larger,
        aligned_text(one.table@, padding, alignment) == aligned_text(
            other.table@,
            padding,
            alignment,
        ),
{
}

/// A difference is reported under the offset that it has in the whole input,
/// wherever its chunk begins: the byte at the position `k` of a chunk that
/// follows `first_compared.len()` compared bytes has that length plus `k` as
/// its offset. With `k` zero this is the first byte of a chunk.
pub proof fn lemma_offset_across_chunks(
    first_compared: Seq<u8>,
    second_compared: Seq<u8>,
    chunk1: Seq<u8>,
    chunk2: Seq<u8>,
    mode: ComparisonMode,
    k: int,
)
    requires
        first_compared.len() == second_compared.len(),
        0 <= k < common_length(chunk1, chunk2),
        differs(chunk1[k], chunk2[k], mode),
    ensures
        differences(first_compared + chunk1, second_compared + chunk2, 0, mode).contains(
            Difference {
                offset: (first_compared.len() + k) as nat,
                first: chunk1[k],
                second: chunk2[k],
            },
        ),
{
    lemma_difference_is_reported(
        first_compared + chunk1,
        second_compared + chunk2,
        0,
        mode,
        first_compared.len() + k,
    );
}

} // verus!
