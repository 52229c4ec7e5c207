//! Finding the differences between two runs of bytes.

use crate::classify::{differs, is_different, mode_of_switch, ComparisonMode};
use crate::table::{
    lemma_no_rows, lemma_row_appended, rows_text, write_row, Difference, ValueOutputFormat,
};
use vstd::prelude::*;

verus! {

/// The number of positions that both inputs reach.
pub open spec fn common_length(first: Seq<u8>, second: Seq<u8>) -> nat {
    if first.len() <= second.len() {
        first.len()
    } else {
        second.len()
    }
}

/// The bytes of the two inputs paired position by position, as far as both
/// reach. The first position has the offset `base`.
pub open spec fn byte_pairs(first: Seq<u8>, second: Seq<u8>, base: nat) -> Seq<Difference> {
    Seq::new(
        common_length(first, second),
        |i: int| Difference { offset: (base + i) as nat, first: first[i], second: second[i] },
    )
}

/// The test that a pair of bytes passes when it is reported under `mode`.
pub open spec fn reported(mode: ComparisonMode) -> spec_fn(Difference) -> bool {
    |pair: Difference| differs(pair.first, pair.second, mode)
}

/// The differences between the two inputs under `mode`, in the order of their
/// offsets. Bytes that one input holds beyond the end of the other are not
/// compared.
pub open spec fn differences(
    first: Seq<u8>,
    second: Seq<u8>,
    base: nat,
    mode: ComparisonMode,
) -> Seq<Difference> {
    byte_pairs(first, second, base).filter(reported(mode))
}

/// A sequence of pairs none of which is reported holds no difference.
proof fn lemma_none_reported(pairs: Seq<Difference>, mode: ComparisonMode)
    requires
        forall|i: int| 0 <= i < pairs.len() ==> !differs(pairs[i].first, pairs[i].second, mode),
    ensures
        pairs.filter(reported(mode)) == Seq::<Difference>::empty(),
    decreases pairs.len(),
{
    reveal(Seq::filter);
    if pairs.len() > 0 {
        lemma_none_reported(pairs.drop_last(), mode);
    }
}

/// Comparing a run that is made of two parts gives the differences of the
/// first parts and then those of the second parts, whose offsets go on where
/// the first parts end: where the run is cut changes nothing.
pub proof fn lemma_differences_of_parts(
    first_head: Seq<u8>,
    first_tail: Seq<u8>,
    second_head: Seq<u8>,
    second_tail: Seq<u8>,
    base: nat,
    mode: ComparisonMode,
)
    requires
        first_head.len() == second_head.len(),
    ensures
        differences(first_head + first_tail, second_head + second_tail, base, mode)
            == differences(first_head, second_head, base, mode) + differences(
            first_tail,
            second_tail,
            base + first_head.len(),
            mode,
        ),
{
    let head = byte_pairs(first_head, second_head, base);
    let tail = byte_pairs(first_tail, second_tail, base + first_head.len());
    assert(byte_pairs(first_head + first_tail, second_head + second_tail, base) =~= head + tail);
    Seq::filter_distributes_over_add(head, tail, reported(mode));
}

/// What one input holds beyond the end of the other plays no part in the
/// differences.
pub proof fn lemma_excess_is_ignored(
    first: Seq<u8>,
    second: Seq<u8>,
    base: nat,
    mode: ComparisonMode,
    first_kept: int,
    second_kept: int,
)
    requires
        common_length(first, second) <= first_kept <= first.len(),
        common_length(first, second) <= second_kept <= second.len(),
    ensures
        differences(first.take(first_kept), second.take(second_kept), base, mode) == differences(
            first,
            second,
            base,
            mode,
        ),
{
    assert(byte_pairs(first.take(first_kept), second.take(second_kept), base)
        =~= byte_pairs(first, second, base));
}

/// Where no two bytes at the same position count as different, there is no
/// difference.
pub proof fn lemma_no_differences(
    first: Seq<u8>,
    second: Seq<u8>,
    base: nat,
    mode: ComparisonMode,
)
    requires
        forall|i: int|
            0 <= i < common_length(first, second) ==> !differs(
                #[trigger] first[i],
                second[i],
                mode,
            ),
    ensures
        differences(first, second, base, mode) == Seq::<Difference>::empty(),
{
    lemma_none_reported(byte_pairs(first, second, base), mode);
}

/// Where the two inputs hold the same bytes as far as both reach, there is no
/// difference, whatever the mode and however long each input is.
pub proof fn lemma_equal_bytes_no_differences(
    first: Seq<u8>,
    second: Seq<u8>,
    base: nat,
    mode: ComparisonMode,
)
    requires
        forall|i: int| 0 <= i < common_length(first, second) ==> #[trigger] first[i] == second[i],
    ensures
        differences(first, second, base, mode) == Seq::<Difference>::empty(),
{
    assert forall|i: int| 0 <= i < common_length(first, second) implies !differs(
        #[trigger] first[i],
        second[i],
        mode,
    ) by {
        crate::classify::lemma_equal_bytes_never_differ(first[i], mode);
    }
    lemma_no_differences(first, second, base, mode);
}

/// Where the two inputs disagree at the position `k` alone, and the two bytes
/// there count as different, that one pair is all that is reported.
pub proof fn lemma_single_difference(
    first: Seq<u8>,
    second: Seq<u8>,
    base: nat,
    mode: ComparisonMode,
    k: int,
)
    requires
        0 <= k < common_length(first, second),
        forall|i: int|
            0 <= i < common_length(first, second) && i != k ==> #[trigger] first[i] == second[i],
        differs(first[k], second[k], mode),
    ensures
        differences(first, second, base, mode) == seq![
            Difference { offset: (base + k) as nat, first: first[k], second: second[k] },
        ],
{
    let pairs = byte_pairs(first, second, base);
    let before = pairs.take(k);
    let after = pairs.skip(k + 1);
    let at = pairs[k];
    assert(pairs =~= before.push(at) + after);
    assert forall|i: int| 0 <= i < before.len() implies !differs(
        before[i].first,
        before[i].second,
        mode,
    ) by {
        crate::classify::lemma_equal_bytes_never_differ(first[i], mode);
    }
    assert forall|i: int| 0 <= i < after.len() implies !differs(
        after[i].first,
        after[i].second,
        mode,
    ) by {
        crate::classify::lemma_equal_bytes_never_differ(first[k + 1 + i], mode);
    }
    lemma_none_reported(before, mode);
    lemma_none_reported(after, mode);
    before.lemma_filter_push(at, reported(mode));
    Seq::filter_distributes_over_add(before.push(at), after, reported(mode));
}

/// Every position at which the two bytes count as different is reported, with
/// its offset and both bytes.
pub proof fn lemma_difference_is_reported(
    first: Seq<u8>,
    second: Seq<u8>,
    base: nat,
    mode: ComparisonMode,
    k: int,
)
    requires
        0 <= k < common_length(first, second),
        differs(first[k], second[k], mode),
    ensures
        differences(first, second, base, mode).contains(
            Difference { offset: (base + k) as nat, first: first[k], second: second[k] },
        ),
{
    let pairs = byte_pairs(first, second, base);
    pairs.lemma_filter_contains(reported(mode), k);
}

/// Everything that is reported is a position that both inputs reach, with the
/// two bytes found there, and those bytes count as different.
pub proof fn lemma_reported_is_difference(
    first: Seq<u8>,
    second: Seq<u8>,
    base: nat,
    mode: ComparisonMode,
    j: int,
)
    requires
        0 <= j < differences(first, second, base, mode).len(),
    ensures
        ({
            let found = differences(first, second, base, mode)[j];
            let k = found.offset - base;
            &&& 0 <= k < common_length(first, second)
            &&& found.first == first[k]
            &&& found.second == second[k]
            &&& differs(found.first, found.second, mode)
        }),
{
    let pairs = byte_pairs(first, second, base);
    let found = differences(first, second, base, mode)[j];
    pairs.lemma_filter_pred(reported(mode), j);
    pairs.lemma_filter_contains_rev(reported(mode), found);
    let i = choose|i: int| 0 <= i < pairs.len() && pairs[i] == found;
    assert(found.offset - base == i);
}

/// The differences found among the first `count` pairs.
spec fn found_among(pairs: Seq<Difference>, mode: ComparisonMode, count: int) -> Seq<Difference> {
    pairs.take(count).filter(reported(mode))
}

/// Looking at one more pair adds it to what was found, where it is reported.
proof fn lemma_found_among_next(pairs: Seq<Difference>, mode: ComparisonMode, count: int)
    requires
        0 <= count < pairs.len(),
    ensures
        found_among(pairs, mode, count + 1) == if differs(
            pairs[count].first,
            pairs[count].second,
            mode,
        ) {
            found_among(pairs, mode, count).push(pairs[count])
        } else {
            found_among(pairs, mode, count)
        },
{
    assert(pairs.take(count + 1) =~= pairs.take(count).push(pairs[count]));
    pairs.take(count).lemma_filter_push(pairs[count], reported(mode));
}

/// Among the first `count` pairs, what is found comes in the order of the
/// offsets, all of which lie below `base + count`.
proof fn lemma_found_in_order(
    first: Seq<u8>,
    second: Seq<u8>,
    base: nat,
    mode: ComparisonMode,
    count: int,
)
    requires
        0 <= count <= common_length(first, second),
    ensures
        ({
            let found = found_among(byte_pairs(first, second, base), mode, count);
            &&& forall|j: int| 0 <= j < found.len() ==> (#[trigger] found[j]).offset < base + count
            &&& forall|i: int, j: int|
                0 <= i < j < found.len() ==> (#[trigger] found[i]).offset < (
                #[trigger] found[j]).offset
        }),
    decreases count,
{
    let pairs = byte_pairs(first, second, base);
    if count == 0 {
        lemma_none_reported(pairs.take(0), mode);
    } else {
        lemma_found_in_order(first, second, base, mode, count - 1);
        lemma_found_among_next(pairs, mode, count - 1);
    }
}

/// The differences are reported in strictly increasing order of their offsets.
pub proof fn lemma_offsets_increase(
    first: Seq<u8>,
    second: Seq<u8>,
    base: nat,
    mode: ComparisonMode,
)
    ensures
        forall|i: int, j: int|
            0 <= i < j < differences(first, second, base, mode).len() ==> (#[trigger] differences(
                first,
                second,
                base,
                mode,
            )[i]).offset < (#[trigger] differences(first, second, base, mode)[j]).offset,
{
    let pairs = byte_pairs(first, second, base);
    lemma_found_in_order(first, second, base, mode, pairs.len() as int);
    assert(pairs.take(pairs.len() as int) =~= pairs);
    assert(differences(first, second, base, mode) == found_among(pairs, mode, pairs.len() as int));
}

/// Compares the two buffers byte by byte, as far as both reach, and appends
/// to `w` one line for each difference. The first byte of each buffer has the
/// offset `buffer_offset`.
pub fn compare_buffers(
    w: &mut Vec<u8>,
    buffer1: &[u8],
    buffer2: &[u8],
    buffer_offset: usize,
    format: &ValueOutputFormat,
    bitflip_only: bool,
)
    requires
        buffer_offset + buffer1.len() <= usize::MAX || buffer_offset + buffer2.len() <= usize::MAX,
    ensures
        final(w)@ == old(w)@ + rows_text(
            differences(buffer1@, buffer2@, buffer_offset as nat, mode_of_switch(bitflip_only)),
            *format,
        ),
{
    let mode = ComparisonMode::from_switch(bitflip_only);
    let count = if buffer1.len() <= buffer2.len() {
        buffer1.len()
    } else {
        buffer2.len()
    };
    let ghost pairs = byte_pairs(buffer1@, buffer2@, buffer_offset as nat);
    proof {
        lemma_none_reported(pairs.take(0), mode);
        lemma_no_rows(*format);
    }
    let mut i: usize = 0;
    while i < count
        invariant
            i <= count,
            count == common_length(buffer1@, buffer2@),
            buffer_offset + count <= usize::MAX,
            pairs == byte_pairs(buffer1@, buffer2@, buffer_offset as nat),
            w@ == old(w)@ + rows_text(found_among(pairs, mode, i as int), *format),
        decreases count - i,
    {
        let v1 = buffer1[i];
        let v2 = buffer2[i];
        let offset = buffer_offset + i;
        proof {
            lemma_found_among_next(pairs, mode, i as int);
        }
        if is_different(v1, v2, mode) {
            write_row(w, offset, v1, v2, format);
            proof {
                lemma_row_appended(found_among(pairs, mode, i as int), pairs[i as int], *format);
            }
        }
        i = i + 1;
    }
    assert(pairs.take(count as int) =~= pairs);
}

} // verus!
