use bincmp::{is_bitflipped, is_different, ComparisonMode};

#[test]
fn exact_mode_reports_every_unequal_pair() {
    for a in 0..=u8::MAX {
        for b in 0..=u8::MAX {
            assert_eq!(is_different(a, b, ComparisonMode::ExactInequality), a != b);
        }
    }
}

#[test]
fn bitflip_mode_reports_pairs_one_bit_apart() {
    for a in 0..=u8::MAX {
        for b in 0..=u8::MAX {
            let one_bit = (a ^ b).count_ones() == 1;
            assert_eq!(is_bitflipped(a, b), one_bit);
            assert_eq!(is_different(a, b, ComparisonMode::SingleBitFlipOnly), one_bit);
        }
    }
}

#[test]
fn identical_bytes_are_never_different() {
    for a in 0..=u8::MAX {
        assert!(!is_bitflipped(a, a));
        assert!(!is_different(a, a, ComparisonMode::ExactInequality));
        assert!(!is_different(a, a, ComparisonMode::SingleBitFlipOnly));
    }
}

#[test]
fn every_single_flipped_bit_is_found() {
    for a in 0..=u8::MAX {
        for bit in 0..8 {
            let b = a ^ (1u8 << bit);
            assert!(is_bitflipped(a, b));
            assert!(is_bitflipped(b, a));
        }
    }
}

#[test]
fn several_flipped_bits_are_passed_over() {
    assert!(!is_bitflipped(0x00, 0x03));
    assert!(!is_bitflipped(0x00, 0xff));
    assert!(!is_bitflipped(0x0f, 0xf0));
    assert!(!is_bitflipped(0x80, 0x01));
    assert!(!is_different(0x00, 0x03, ComparisonMode::SingleBitFlipOnly));
    assert!(is_different(0x00, 0x03, ComparisonMode::ExactInequality));
}

#[test]
fn known_pairs_in_both_modes() {
    assert!(is_bitflipped(0x0f, 0x1f));
    assert!(is_bitflipped(0x00, 0x80));
    assert!(is_bitflipped(0xff, 0xfe));
    assert!(is_different(0x0f, 0x1f, ComparisonMode::SingleBitFlipOnly));
    assert!(is_different(0x0f, 0x1f, ComparisonMode::ExactInequality));
}

#[test]
fn the_switch_selects_the_mode() {
    assert_eq!(ComparisonMode::from_switch(false), ComparisonMode::ExactInequality);
    assert_eq!(ComparisonMode::from_switch(true), ComparisonMode::SingleBitFlipOnly);
}
