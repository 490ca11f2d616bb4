//! Segment patterns of the twenty symbols and the bus addresses of the five digits.

use vstd::prelude::*;

verus! {

/// Top bar.
pub const SEG_A: u8 = 0x80;

/// Upper right bar.
pub const SEG_B: u8 = 0x40;

/// Lower right bar.
pub const SEG_C: u8 = 0x02;

/// Bottom bar.
pub const SEG_D: u8 = 0x04;

/// Lower left bar.
pub const SEG_E: u8 = 0x01;

/// Upper left bar.
pub const SEG_F: u8 = 0x10;

/// Middle bar.
pub const SEG_G: u8 = 0x20;

/// Upper dot of the colon.
pub const SEG_UPPER: u8 = 0x20;

/// Lower dot of the colon.
pub const SEG_LOWER: u8 = 0x02;

/// Number of symbols that can be shown.
pub const SYMBOL_COUNT: u8 = 20;

/// Number of digit positions of the display.
pub const DIGIT_COUNT: usize = 5;

/// Symbol that lights nothing.
pub const SYM_BLANK: u8 = 16;

/// Symbol that lights both dots of the colon.
pub const SYM_COLON: u8 = 17;

/// Symbol that lights the upper dot of the colon.
pub const SYM_COLON_UPPER: u8 = 18;

/// Symbol that lights the lower dot of the colon.
pub const SYM_COLON_LOWER: u8 = 19;

/// The segment byte of symbol `sym`, as the bars that draw it.
pub open spec fn segment_pattern(sym: int) -> u8 {
    if sym == 0 {
        SEG_A | SEG_B | SEG_C | SEG_D | SEG_E | SEG_F
    } else if sym == 1 {
        SEG_B | SEG_C
    } else if sym == 2 {
        SEG_A | SEG_B | SEG_G | SEG_E | SEG_D
    } else if sym == 3 {
        SEG_A | SEG_B | SEG_G | SEG_C | SEG_D
    } else if sym == 4 {
        SEG_F | SEG_B | SEG_G | SEG_C
    } else if sym == 5 {
        SEG_A | SEG_F | SEG_G | SEG_C | SEG_D
    } else if sym == 6 {
        SEG_A | SEG_F | SEG_E | SEG_D | SEG_C | SEG_G
    } else if sym == 7 {
        SEG_A | SEG_B | SEG_C
    } else if sym == 8 {
        SEG_A | SEG_B | SEG_C | SEG_D | SEG_E | SEG_F | SEG_G
    } else if sym == 9 {
        SEG_G | SEG_F | SEG_A | SEG_B | SEG_C | SEG_D
    } else if sym == 10 {
        SEG_A | SEG_F | SEG_B | SEG_G | SEG_E | SEG_C
    } else if sym == 11 {
        SEG_F | SEG_G | SEG_E | SEG_C | SEG_D
    } else if sym == 12 {
        SEG_A | SEG_F | SEG_E | SEG_D
    } else if sym == 13 {
        SEG_B | SEG_E | SEG_D | SEG_C | SEG_G
    } else if sym == 14 {
        SEG_A | SEG_F | SEG_G | SEG_E | SEG_D
    } else if sym == 15 {
        SEG_A | SEG_F | SEG_G | SEG_E
    } else if sym == 17 {
        SEG_UPPER | SEG_LOWER
    } else if sym == 18 {
        SEG_UPPER
    } else if sym == 19 {
        SEG_LOWER
    } else {
        0
    }
}

/// The bars of each symbol, combined, give the bytes of the lookup table.
proof fn lemma_pattern_bytes()
    by (bit_vector)
    ensures
        SEG_A | SEG_B | SEG_C | SEG_D | SEG_E | SEG_F == 0xD7u8,
        SEG_B | SEG_C == 0x42u8,
        SEG_A | SEG_B | SEG_G | SEG_E | SEG_D == 0xE5u8,
        SEG_A | SEG_B | SEG_G | SEG_C | SEG_D == 0xE6u8,
        SEG_F | SEG_B | SEG_G | SEG_C == 0x72u8,
        SEG_A | SEG_F | SEG_G | SEG_C | SEG_D == 0xB6u8,
        SEG_A | SEG_F | SEG_E | SEG_D | SEG_C | SEG_G == 0xB7u8,
        SEG_A | SEG_B | SEG_C == 0xC2u8,
        SEG_A | SEG_B | SEG_C | SEG_D | SEG_E | SEG_F | SEG_G == 0xF7u8,
        SEG_G | SEG_F | SEG_A | SEG_B | SEG_C | SEG_D == 0xF6u8,
        SEG_A | SEG_F | SEG_B | SEG_G | SEG_E | SEG_C == 0xF3u8,
        SEG_F | SEG_G | SEG_E | SEG_C | SEG_D == 0x37u8,
        SEG_A | SEG_F | SEG_E | SEG_D == 0x95u8,
        SEG_B | SEG_E | SEG_D | SEG_C | SEG_G == 0x67u8,
        SEG_A | SEG_F | SEG_G | SEG_E | SEG_D == 0xB5u8,
        SEG_A | SEG_F | SEG_G | SEG_E == 0xB1u8,
        SEG_UPPER | SEG_LOWER == 0x22u8,
{
}

/// The segment byte that draws symbol `sym`.
pub fn encode(sym: u8) -> (pattern: u8)
    requires
        sym < SYMBOL_COUNT,
    ensures
        pattern == segment_pattern(sym as int),
{
    let table: [u8; 20] = [
        0xD7, 0x42, 0xE5, 0xE6, 0x72, 0xB6, 0xB7, 0xC2, 0xF7, 0xF6,
        0xF3, 0x37, 0x95, 0x67, 0xB5, 0xB1, 0x00, 0x22, 0x20, 0x02,
    ];
    proof {
        lemma_pattern_bytes();
    }
    table[sym as usize]
}

/// The bus address that selects the driver of digit position `pos`, counted
/// from the left.
pub open spec fn digit_select(pos: int) -> u8 {
    if pos == 0 {
        0x40
    } else if pos == 1 {
        0x80
    } else if pos == 2 {
        0x10
    } else if pos == 3 {
        0x01
    } else {
        0x20
    }
}

/// The bus address that selects the driver of digit position `pos`.
pub fn digit_address(pos: usize) -> (address: u8)
    requires
        pos < DIGIT_COUNT,
    ensures
        address == digit_select(pos as int),
{
    let table: [u8; 5] = [0x40, 0x80, 0x10, 0x01, 0x20];
    table[pos]
}

/// No two digit positions share a bus address.
pub proof fn lemma_digit_addresses_distinct(p: int, q: int)
    requires
        0 <= p < DIGIT_COUNT,
        0 <= q < DIGIT_COUNT,
        p != q,
    ensures
        digit_select(p) != digit_select(q),
{
}

/// The symbols 0 to 9 are the decimal digits, and the blank symbol lights no
/// bar at all.
pub proof fn lemma_blank_is_dark()
    ensures
        segment_pattern(SYM_BLANK as int) == 0,
{
}

} // verus!
