use bincmp::{
    compare_bytes, note_message, Comparator, LargerInput, Report, Step, ValueOutputFormat,
    BUFFER_SIZE,
};

const FORMATS: [ValueOutputFormat; 4] = [
    ValueOutputFormat::Hex,
    ValueOutputFormat::Decimal,
    ValueOutputFormat::Binary,
    ValueOutputFormat::Combined,
];

const HEADER: &str = "OFFSET\tFILE1\tFILE2\t\n";

fn pattern(len: usize) -> Vec<u8> {
    (0..len).map(|i| u8::try_from((i * 7 + 3) % 251).unwrap()).collect()
}

fn table(report: &Report) -> String {
    String::from_utf8(report.table.clone()).unwrap()
}

fn header_of(format: ValueOutputFormat) -> &'static str {
    match format {
        ValueOutputFormat::Combined => "OFFSET\tHex\tFILE1\tHex\tFILE2\tHex\t\n",
        _ => HEADER,
    }
}

#[test]
fn the_chunk_size_is_1024() {
    assert_eq!(BUFFER_SIZE, 1024);
}

#[test]
fn identical_inputs_give_the_header_alone() {
    for len in [0usize, 1, 5, 1023, 1024, 1025, 2047, 2048, 2049, 5000] {
        let input = pattern(len);
        for format in FORMATS {
            for bitflip_only in [false, true] {
                let report = compare_bytes(&input, &input, format, bitflip_only);
                assert_eq!(table(&report), header_of(format));
                assert_eq!(report.larger, LargerInput::Neither);
            }
        }
    }
}

#[test]
fn one_differing_byte_gives_one_row_with_its_offset() {
    for len in [1usize, 1024, 1025, 2048, 3000] {
        for k in [0usize, 1, 1022, 1023, 1024, 1025, 2047, 2048, 2999] {
            if k >= len {
                continue;
            }
            let first = pattern(len);
            let mut second = first.clone();
            second[k] ^= 0x40;
            let report = compare_bytes(&first, &second, ValueOutputFormat::Decimal, false);
            assert_eq!(
                table(&report),
                format!("{}{}\t{}\t{}\t\n", HEADER, k, first[k], second[k])
            );
            assert_eq!(report.larger, LargerInput::Neither);
            let flipped = compare_bytes(&first, &second, ValueOutputFormat::Hex, true);
            assert_eq!(
                table(&flipped),
                format!("{}{:x}\t{:x}\t{:x}\t\n", HEADER, k, first[k], second[k])
            );
        }
    }
}

#[test]
fn a_difference_at_a_chunk_boundary_keeps_its_offset() {
    let first = vec![0u8; 3 * 1024];
    let mut second = first.clone();
    second[1024] = 0x0f;
    second[2048] = 0xf0;
    let report = compare_bytes(&first, &second, ValueOutputFormat::Decimal, false);
    assert_eq!(table(&report), format!("{}1024\t0\t15\t\n2048\t0\t240\t\n", HEADER));
    let hex = compare_bytes(&first, &second, ValueOutputFormat::Hex, false);
    assert_eq!(table(&hex), format!("{}400\t0\tf\t\n800\t0\tf0\t\n", HEADER));
}

#[test]
fn the_known_pair_in_every_format() {
    let first = [9u8, 9, 9, 9, 9, 0x0f, 9];
    let second = [9u8, 9, 9, 9, 9, 0x1f, 9];
    let expected = [
        "OFFSET\tFILE1\tFILE2\t\n5\tf\t1f\t\n",
        "OFFSET\tFILE1\tFILE2\t\n5\t15\t31\t\n",
        "OFFSET\tFILE1\tFILE2\t\n5\t00001111\t00011111\t\n",
        "OFFSET\tHex\tFILE1\tHex\tFILE2\tHex\t\n5\t5\t15\tf\t31\t1f\t\n",
    ];
    for (format, text) in FORMATS.into_iter().zip(expected) {
        assert_eq!(table(&compare_bytes(&first, &second, format, false)), text);
        assert_eq!(table(&compare_bytes(&first, &second, format, true)), text);
    }
}

#[test]
fn a_pair_several_bits_apart_is_passed_over_in_bitflip_mode() {
    let first = [0x00u8];
    let second = [0x03u8];
    let exact = compare_bytes(&first, &second, ValueOutputFormat::Hex, false);
    assert_eq!(table(&exact), format!("{}0\t0\t3\t\n", HEADER));
    let flipped = compare_bytes(&first, &second, ValueOutputFormat::Hex, true);
    assert_eq!(table(&flipped), HEADER);
    assert_eq!(flipped.larger, LargerInput::Neither);
}

#[test]
fn a_shorter_first_input_is_noted() {
    for (short, long) in [(0usize, 1usize), (0, 5), (5, 6), (1023, 1024), (1024, 1025),
        (1024, 2048), (1024, 5000), (2047, 2048), (2048, 4096), (100, 5000)]
    {
        let second = pattern(long);
        let first = second[..short].to_vec();
        for format in FORMATS {
            for bitflip_only in [false, true] {
                let report = compare_bytes(&first, &second, format, bitflip_only);
                assert_eq!(table(&report), header_of(format));
                assert_eq!(report.larger, LargerInput::Second);
            }
        }
    }
}

#[test]
fn a_shorter_second_input_is_noted() {
    for (short, long) in [(0usize, 1usize), (5, 6), (1023, 1024), (1024, 1025), (1024, 2048),
        (2048, 4096), (100, 5000)]
    {
        let first = pattern(long);
        let second = first[..short].to_vec();
        let report = compare_bytes(&first, &second, ValueOutputFormat::Hex, false);
        assert_eq!(table(&report), HEADER);
        assert_eq!(report.larger, LargerInput::First);
    }
}

#[test]
fn differences_before_the_end_of_the_shorter_input_are_reported() {
    let second = pattern(3000);
    let mut first = second[..1500].to_vec();
    first[7] ^= 1;
    first[1499] ^= 2;
    let report = compare_bytes(&first, &second, ValueOutputFormat::Decimal, false);
    assert_eq!(
        table(&report),
        format!(
            "{}7\t{}\t{}\t\n1499\t{}\t{}\t\n",
            HEADER, first[7], second[7], first[1499], second[1499]
        )
    );
    assert_eq!(report.larger, LargerInput::Second);
}

#[test]
fn comparing_twice_gives_the_same_report() {
    let first = pattern(4000);
    let mut second = pattern(4100);
    second[3] ^= 0xff;
    second[1024] ^= 0x01;
    second[3999] ^= 0x10;
    for format in FORMATS {
        for bitflip_only in [false, true] {
            let one = compare_bytes(&first, &second, format, bitflip_only);
            let other = compare_bytes(&first, &second, format, bitflip_only);
            assert_eq!(one.table, other.table);
            assert_eq!(one.larger, other.larger);
        }
    }
}

#[test]
fn every_differing_byte_has_its_row() {
    let first = vec![0xaau8; 2500];
    let second = vec![0x55u8; 2500];
    let report = compare_bytes(&first, &second, ValueOutputFormat::Decimal, false);
    let text = table(&report);
    let mut lines = text.lines();
    assert_eq!(lines.next(), Some("OFFSET\tFILE1\tFILE2\t"));
    for offset in 0..2500 {
        assert_eq!(lines.next(), Some(format!("{}\t170\t85\t", offset).as_str()));
    }
    assert_eq!(lines.next(), None);
}

#[test]
fn a_new_comparator_holds_the_header() {
    let comparator = Comparator::new(ValueOutputFormat::Combined, false);
    assert_eq!(comparator.offset(), 0);
    match comparator.feed(&[], &[]) {
        Step::Finished(report) => {
            assert_eq!(table(&report), "OFFSET\tHex\tFILE1\tHex\tFILE2\tHex\t\n");
            assert_eq!(report.larger, LargerInput::Neither);
        }
        Step::Continue(_) => panic!("two empty chunks end the comparison"),
    }
}

#[test]
fn full_chunks_move_the_offset_by_one_chunk() {
    let chunk1 = vec![1u8; 1024];
    let mut chunk2 = vec![1u8; 1024];
    chunk2[0] = 2;
    let comparator = Comparator::new(ValueOutputFormat::Decimal, false);
    let comparator = match comparator.feed(&chunk1, &chunk2) {
        Step::Continue(next) => next,
        Step::Finished(_) => panic!("two full chunks do not end the comparison"),
    };
    assert_eq!(comparator.offset(), 1024);
    let comparator = match comparator.feed(&chunk1, &chunk2) {
        Step::Continue(next) => next,
        Step::Finished(_) => panic!("two full chunks do not end the comparison"),
    };
    assert_eq!(comparator.offset(), 2048);
    match comparator.feed(&chunk1[..10], &chunk2[..3]) {
        Step::Finished(report) => {
            assert_eq!(
                table(&report),
                format!("{}0\t1\t2\t\n1024\t1\t2\t\n2048\t1\t2\t\n", HEADER)
            );
            assert_eq!(report.larger, LargerInput::First);
        }
        Step::Continue(_) => panic!("a short chunk ends the comparison"),
    }
}

#[test]
fn a_short_chunk_ends_the_comparison() {
    let full = vec![7u8; 1024];
    let short = vec![7u8; 1023];
    for (chunk1, chunk2, larger) in [
        (&full, &short, LargerInput::First),
        (&short, &full, LargerInput::Second),
        (&short, &short, LargerInput::Neither),
    ] {
        let comparator = Comparator::new(ValueOutputFormat::Hex, true);
        match comparator.feed(chunk1, chunk2) {
            Step::Finished(report) => {
                assert_eq!(table(&report), HEADER);
                assert_eq!(report.larger, larger);
            }
            Step::Continue(_) => panic!("a short chunk ends the comparison"),
        }
    }
}

#[test]
fn feeding_chunks_gives_what_comparing_the_whole_gives() {
    let first = pattern(2600);
    let mut second = pattern(2700);
    for k in [0usize, 500, 1023, 1024, 2047, 2048, 2599] {
        second[k] ^= 0x08;
    }
    let whole = compare_bytes(&first, &second, ValueOutputFormat::Combined, true);
    let mut comparator = Comparator::new(ValueOutputFormat::Combined, true);
    let report = loop {
        let offset = comparator.offset();
        let end1 = first.len().min(offset + BUFFER_SIZE);
        let end2 = second.len().min(offset + BUFFER_SIZE);
        match comparator.feed(&first[offset..end1], &second[offset..end2]) {
            Step::Continue(next) => comparator = next,
            Step::Finished(report) => break report,
        }
    };
    assert_eq!(report.table, whole.table);
    assert_eq!(report.larger, whole.larger);
    assert_eq!(report.larger, LargerInput::Second);
}

#[test]
fn no_note_for_inputs_of_one_length() {
    assert_eq!(note_message(LargerInput::Neither, "a.bin", "b.bin"), None);
}

#[test]
fn note_on_a_larger_second_file() {
    assert_eq!(
        note_message(LargerInput::Second, "a.bin", "b.bin"),
        Some(b"NOTE: The second file (b.bin) is larger than the first file (a.bin).\n".to_vec())
    );
}

#[test]
fn note_on_a_larger_first_file() {
    assert_eq!(
        note_message(LargerInput::First, "a.bin", "b.bin"),
        Some(b"NOTE: The first file (a.bin) is larger than the second file (b.bin).\n".to_vec())
    );
}

#[test]
fn the_note_keeps_names_that_are_not_ascii() {
    let note = note_message(LargerInput::First, "données/é.bin", "").unwrap();
    assert_eq!(
        String::from_utf8(note).unwrap(),
        "NOTE: The first file (données/é.bin) is larger than the second file ().\n"
    );
}
