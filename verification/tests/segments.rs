use wifi_clock::segments::{
    digit_address, encode, DIGIT_COUNT, SEG_A, SEG_B, SEG_C, SEG_D, SEG_E, SEG_F, SEG_G,
    SEG_LOWER, SEG_UPPER, SYMBOL_COUNT, SYM_BLANK, SYM_COLON, SYM_COLON_LOWER, SYM_COLON_UPPER,
};

const PATTERNS: [u8; 20] = [
    0xD7, 0x42, 0xE5, 0xE6, 0x72, 0xB6, 0xB7, 0xC2, 0xF7, 0xF6, 0xF3, 0x37, 0x95, 0x67, 0xB5,
    0xB1, 0x00, 0x22, 0x20, 0x02,
];

#[test]
fn encode_gives_the_pattern_of_every_symbol() {
    assert_eq!(SYMBOL_COUNT, 20);
    for sym in 0..SYMBOL_COUNT {
        assert_eq!(encode(sym), PATTERNS[sym as usize], "symbol {}", sym);
    }
}

#[test]
fn encode_gives_the_same_pattern_every_time() {
    for sym in 0..SYMBOL_COUNT {
        let first = encode(sym);
        for _ in 0..3 {
            assert_eq!(encode(sym), first);
        }
    }
}

#[test]
fn patterns_are_made_of_the_bars() {
    assert_eq!(encode(0), SEG_A | SEG_B | SEG_C | SEG_D | SEG_E | SEG_F);
    assert_eq!(encode(1), SEG_B | SEG_C);
    assert_eq!(encode(7), SEG_A | SEG_B | SEG_C);
    assert_eq!(encode(8), SEG_A | SEG_B | SEG_C | SEG_D | SEG_E | SEG_F | SEG_G);
    assert_eq!(encode(0xF), SEG_A | SEG_F | SEG_G | SEG_E);
}

#[test]
fn bar_bits_are_laid_out_as_wired() {
    assert_eq!(
        [SEG_A, SEG_B, SEG_C, SEG_D, SEG_E, SEG_F, SEG_G],
        [0x80, 0x40, 0x02, 0x04, 0x01, 0x10, 0x20]
    );
    assert_eq!([SEG_UPPER, SEG_LOWER], [0x20, 0x02]);
}

#[test]
fn special_symbols_follow_the_hex_digits() {
    assert_eq!(SYM_BLANK, 16);
    assert_eq!(SYM_COLON, 17);
    assert_eq!(SYM_COLON_UPPER, 18);
    assert_eq!(SYM_COLON_LOWER, 19);
    assert_eq!(encode(SYM_BLANK), 0);
    assert_eq!(encode(SYM_COLON), SEG_UPPER | SEG_LOWER);
    assert_eq!(encode(SYM_COLON_UPPER), SEG_UPPER);
    assert_eq!(encode(SYM_COLON_LOWER), SEG_LOWER);
}

#[test]
fn all_patterns_differ() {
    for a in 0..SYMBOL_COUNT {
        for b in 0..a {
            assert_ne!(encode(a), encode(b), "symbols {} and {}", a, b);
        }
    }
}

#[test]
fn digit_addresses_are_the_wired_ones() {
    assert_eq!(DIGIT_COUNT, 5);
    let expected: [u8; 5] = [0x40, 0x80, 0x10, 0x01, 0x20];
    for pos in 0..DIGIT_COUNT {
        assert_eq!(digit_address(pos), expected[pos]);
        assert_eq!(digit_address(pos), expected[pos]);
    }
}

#[test]
fn digit_addresses_differ() {
    for p in 0..DIGIT_COUNT {
        for q in 0..p {
            assert_ne!(digit_address(p), digit_address(q));
        }
    }
}
