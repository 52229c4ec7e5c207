use bincmp::{write_header, write_row, ValueOutputFormat};

fn header(format: ValueOutputFormat) -> String {
    let mut out = Vec::new();
    write_header(&mut out, &format);
    String::from_utf8(out).unwrap()
}

fn row(offset: usize, first: u8, second: u8, format: ValueOutputFormat) -> String {
    let mut out = Vec::new();
    write_row(&mut out, offset, first, second, &format);
    String::from_utf8(out).unwrap()
}

#[test]
fn header_of_the_single_formats() {
    assert_eq!(header(ValueOutputFormat::Hex), "OFFSET\tFILE1\tFILE2\t\n");
    assert_eq!(header(ValueOutputFormat::Decimal), "OFFSET\tFILE1\tFILE2\t\n");
    assert_eq!(header(ValueOutputFormat::Binary), "OFFSET\tFILE1\tFILE2\t\n");
}

#[test]
fn header_of_the_combined_format() {
    assert_eq!(header(ValueOutputFormat::Combined), "OFFSET\tHex\tFILE1\tHex\tFILE2\tHex\t\n");
}

#[test]
fn hex_row() {
    assert_eq!(row(5, 0x0f, 0x1f, ValueOutputFormat::Hex), "5\tf\t1f\t\n");
    assert_eq!(row(1024, 0xab, 0x00, ValueOutputFormat::Hex), "400\tab\t0\t\n");
}

#[test]
fn decimal_row() {
    assert_eq!(row(5, 0x0f, 0x1f, ValueOutputFormat::Decimal), "5\t15\t31\t\n");
    assert_eq!(row(1024, 255, 0, ValueOutputFormat::Decimal), "1024\t255\t0\t\n");
}

#[test]
fn binary_row() {
    assert_eq!(row(5, 0x0f, 0x1f, ValueOutputFormat::Binary), "5\t00001111\t00011111\t\n");
    assert_eq!(row(255, 0, 255, ValueOutputFormat::Binary), "ff\t00000000\t11111111\t\n");
}

#[test]
fn combined_row() {
    assert_eq!(row(5, 0x0f, 0x1f, ValueOutputFormat::Combined), "5\t5\t15\tf\t31\t1f\t\n");
    assert_eq!(row(26, 10, 200, ValueOutputFormat::Combined), "26\t1a\t10\ta\t200\tc8\t\n");
}

#[test]
fn rows_match_the_standard_formatting() {
    for offset in [0usize, 1, 9, 10, 15, 16, 255, 256, 1023, 1024, 4095, 65536, 123456789] {
        for (first, second) in [(0u8, 1u8), (15, 16), (127, 128), (254, 255), (200, 100)] {
            assert_eq!(
                row(offset, first, second, ValueOutputFormat::Hex),
                format!("{:x}\t{:x}\t{:x}\t\n", offset, first, second)
            );
            assert_eq!(
                row(offset, first, second, ValueOutputFormat::Decimal),
                format!("{}\t{}\t{}\t\n", offset, first, second)
            );
            assert_eq!(
                row(offset, first, second, ValueOutputFormat::Binary),
                format!("{:x}\t{:08b}\t{:08b}\t\n", offset, first, second)
            );
            assert_eq!(
                row(offset, first, second, ValueOutputFormat::Combined),
                format!(
                    "{}\t{:x}\t{}\t{:x}\t{}\t{:x}\t\n",
                    offset, offset, first, first, second, second
                )
            );
        }
    }
}

#[test]
fn lines_are_appended_to_what_is_there() {
    let mut out = Vec::new();
    write_header(&mut out, &ValueOutputFormat::Hex);
    write_row(&mut out, 5, 0x0f, 0x1f, &ValueOutputFormat::Hex);
    write_row(&mut out, 6, 1, 2, &ValueOutputFormat::Hex);
    assert_eq!(String::from_utf8(out).unwrap(), "OFFSET\tFILE1\tFILE2\t\n5\tf\t1f\t\n6\t1\t2\t\n");
}
