//! What the five digits show, the commands that change it, and the scan that
//! puts it on the bus.

use crate::bus::{
    data_levels, lemma_after_all_concat, lemma_after_all_push, write_steps, LedBus, Level, Lines,
    Step,
};
use crate::segments::{
    digit_address, digit_select, encode, segment_pattern, DIGIT_COUNT, SYMBOL_COUNT, SYM_BLANK,
};
use core::ops::Range;
use vstd::arithmetic::div_mod::{
    lemma_div_denominator, lemma_fundamental_div_mod_converse, lemma_mod_breakdown, lemma_mod_mod,
};
use vstd::prelude::*;

verus! {

/// Bus address of the latch that selects the digit.
pub const DIGIT_LATCH: u8 = 0;

/// Bus address of the latch that holds the segment pattern.
pub const SEGMENT_LATCH: u8 = 1;

/// Milliseconds that one digit stays lit before the scan moves on.
pub const REFRESH_MILLIS: u64 = 2;

/// Ten to the power `k`.
pub open spec fn pow10(k: nat) -> nat
    decreases k,
{
    if k == 0 {
        1
    } else {
        10 * pow10((k - 1) as nat)
    }
}

/// The decimal digit of `value` that stands `k` places from the right.
pub open spec fn decimal_digit(value: nat, k: nat) -> nat {
    (value / pow10(k)) % 10
}

/// The symbols after every position from `start` up to, not including, `end`
/// is given the symbol `sym`.
pub open spec fn with_symbol(syms: Seq<u8>, start: int, end: int, sym: u8) -> Seq<u8> {
    Seq::new(
        syms.len(),
        |i: int|
            if start <= i < end {
                sym
            } else {
                syms[i]
            },
    )
}

/// The symbols after `value` is written in decimal into the positions from
/// `start` up to, not including, `end`: right-aligned, the digits that do not
/// fit dropped from the left, the positions outside left alone.
pub open spec fn with_integer(syms: Seq<u8>, start: int, end: int, value: nat) -> Seq<u8> {
    Seq::new(
        syms.len(),
        |i: int|
            if start <= i < end {
                decimal_digit(value, (end - 1 - i) as nat) as u8
            } else {
                syms[i]
            },
    )
}

/// Whether the positions from `start` up to `end` lie on the display; a range
/// that holds no position always does.
pub open spec fn on_display(start: int, end: int) -> bool {
    start < end ==> 0 <= start && end <= DIGIT_COUNT
}

/// A change to what the display shows.
#[derive(Clone, Copy, Debug, PartialEq, Eq, Structural)]
pub enum DisplayCommand {
    /// Show `sym` at `pos`.
    SetSym { pos: usize, sym: u8 },
    /// Show `sym` at every position from `start` up to `end`.
    SetSymRange { start: usize, end: usize, sym: u8 },
    /// Show `val` in decimal in the positions from `start` up to `end`.
    SetInt { start: usize, end: usize, val: u16 },
}

impl DisplayCommand {
    /// Whether the command names positions of the display and a symbol that
    /// exists.
    pub open spec fn valid(self) -> bool {
        match self {
            DisplayCommand::SetSym { pos, sym } => pos < DIGIT_COUNT && sym < SYMBOL_COUNT,
            DisplayCommand::SetSymRange { start, end, sym } => on_display(start as int, end as int)
                && sym < SYMBOL_COUNT,
            DisplayCommand::SetInt { start, end, val } => on_display(start as int, end as int),
        }
    }

    /// Whether the command names positions of the display and a symbol that
    /// exists, so that it can be carried out.
    pub fn is_valid(self) -> (valid: bool)
        ensures
            valid == self.valid(),
    {
        match self {
            DisplayCommand::SetSym { pos, sym } => pos < DIGIT_COUNT && sym < SYMBOL_COUNT,
            DisplayCommand::SetSymRange { start, end, sym } => (start >= end || end <= DIGIT_COUNT)
                && sym < SYMBOL_COUNT,
            DisplayCommand::SetInt { start, end, val: _ } => start >= end || end <= DIGIT_COUNT,
        }
    }

    /// The symbols after the command.
    pub open spec fn applied(self, syms: Seq<u8>) -> Seq<u8> {
        match self {
            DisplayCommand::SetSym { pos, sym } => syms.update(pos as int, sym),
            DisplayCommand::SetSymRange { start, end, sym } => with_symbol(
                syms,
                start as int,
                end as int,
                sym,
            ),
            DisplayCommand::SetInt { start, end, val } => with_integer(
                syms,
                start as int,
                end as int,
                val as nat,
            ),
        }
    }
}

/// The symbols that the five digits show, left to right.
pub struct DisplayControl {
    syms: [u8; 5],
}

impl View for DisplayControl {
    type V = Seq<u8>;

    closed spec fn view(&self) -> Seq<u8> {
        self.syms@
    }
}

/// A display that shows nothing.
pub fn new() -> (disp: DisplayControl)
    ensures
        disp@ == Seq::new(DIGIT_COUNT as nat, |i: int| SYM_BLANK),
{
    let disp = DisplayControl { syms: [SYM_BLANK; 5] };
    assert(disp@ =~= Seq::new(DIGIT_COUNT as nat, |i: int| SYM_BLANK));
    disp
}

impl DisplayControl {
    #[verifier::type_invariant]
    spec fn symbols_exist(&self) -> bool {
        forall|i: int| 0 <= i < DIGIT_COUNT ==> self.syms@[i] < SYMBOL_COUNT
    }

    /// The symbols shown, left to right, each of them one that exists.
    pub fn snapshot(&self) -> (syms: [u8; 5])
        ensures
            syms@ == self@,
            forall|i: int| 0 <= i < DIGIT_COUNT ==> syms@[i] < SYMBOL_COUNT,
    {
        proof {
            use_type_invariant(self);
        }
        self.syms
    }

    /// Shows `sym` at `pos`.
    pub fn set_sym(&mut self, pos: usize, sym: u8)
        requires
            pos < DIGIT_COUNT,
            sym < SYMBOL_COUNT,
        ensures
            final(self)@ == old(self)@.update(pos as int, sym),
    {
        proof {
            use_type_invariant(&*self);
        }
        self.syms[pos] = sym;
    }

    /// Shows `sym` at every position of `range`.
    pub fn set_sym_range(&mut self, range: Range<usize>, sym: u8)
        requires
            on_display(range.start as int, range.end as int),
            sym < SYMBOL_COUNT,
        ensures
            final(self)@ == with_symbol(old(self)@, range.start as int, range.end as int, sym),
    {
        proof {
            use_type_invariant(&*self);
        }
        let mut d: usize = range.start;
        while d < range.end
            invariant
                range.start <= d,
                range.start < range.end ==> d <= range.end <= DIGIT_COUNT,
                range.start >= range.end ==> d == range.start,
                sym < SYMBOL_COUNT,
                forall|i: int| 0 <= i < DIGIT_COUNT ==> self.syms@[i] < SYMBOL_COUNT,
                forall|i: int|
                    0 <= i < DIGIT_COUNT ==> #[trigger] self.syms@[i] == if range.start <= i < d {
                        sym
                    } else {
                        old(self).syms@[i]
                    },
            decreases range.end - d,
        {
            self.syms[d] = sym;
            d = d + 1;
        }
        assert(self@ =~= with_symbol(old(self)@, range.start as int, range.end as int, sym));
    }

    /// Shows `val` in decimal in the positions of `range`, the last digit at
    /// the right end. Digits that do not fit are dropped from the left, a
    /// number with fewer digits than the range has positions gets leading
    /// zeros, and positions outside the range are left alone.
    pub fn set_int(&mut self, range: Range<usize>, val: u16)
        requires
            on_display(range.start as int, range.end as int),
        ensures
            final(self)@ == with_integer(
                old(self)@,
                range.start as int,
                range.end as int,
                val as nat,
            ),
    {
        proof {
            use_type_invariant(&*self);
        }
        let mut d: usize = range.end;
        let mut rest: u16 = val;
        assert(pow10(0) == 1);
        assert(val as nat / 1 == val as nat);
        while d > range.start
            invariant
                range.start < range.end ==> range.start <= d <= range.end <= DIGIT_COUNT,
                range.start >= range.end ==> d == range.end,
                rest as nat == val as nat / pow10((range.end - d) as nat),
                forall|i: int| 0 <= i < DIGIT_COUNT ==> self.syms@[i] < SYMBOL_COUNT,
                forall|i: int|
                    0 <= i < DIGIT_COUNT ==> #[trigger] self.syms@[i] == if d <= i < range.end {
                        decimal_digit(val as nat, (range.end - 1 - i) as nat) as u8
                    } else {
                        old(self).syms@[i]
                    },
            decreases d,
        {
            proof {
                lemma_pow10_positive((range.end - d) as nat);
                lemma_div_denominator(val as int, pow10((range.end - d) as nat) as int, 10);
            }
            d = d - 1;
            self.syms[d] = (rest % 10) as u8;
            rest = rest / 10;
        }
        assert(self@ =~= with_integer(
            old(self)@,
            range.start as int,
            range.end as int,
            val as nat,
        ));
    }

    /// Carries out one command.
    pub fn apply(&mut self, command: DisplayCommand)
        requires
            command.valid(),
        ensures
            final(self)@ == command.applied(old(self)@),
    {
        match command {
            DisplayCommand::SetSym { pos, sym } => self.set_sym(pos, sym),
            DisplayCommand::SetSymRange { start, end, sym } => self.set_sym_range(start..end, sym),
            DisplayCommand::SetInt { start, end, val } => self.set_int(start..end, val),
        }
    }
}

/// The steps that light the digit at `pos`: the segments go dark, the digit
/// is selected, its pattern is put out, and the scan rests on it.
pub open spec fn digit_steps(syms: Seq<u8>, pos: int) -> Seq<Step> {
    write_steps(SEGMENT_LATCH, 0) + write_steps(DIGIT_LATCH, digit_select(pos)) + write_steps(
        SEGMENT_LATCH,
        segment_pattern(syms[pos] as int),
    ) + seq![Step::Sleep(REFRESH_MILLIS)]
}

/// The steps that light the first `n` digits one after the other.
pub open spec fn scan_steps(syms: Seq<u8>, n: nat) -> Seq<Step>
    decreases n,
{
    if n == 0 {
        Seq::empty()
    } else {
        scan_steps(syms, (n - 1) as nat) + digit_steps(syms, n - 1)
    }
}

/// The steps of one refresh cycle: every digit once, left to right.
pub open spec fn refresh_steps(syms: Seq<u8>) -> Seq<Step> {
    scan_steps(syms, DIGIT_COUNT as nat)
}

/// Lights the digit at `pos`.
fn scan_digit(led_bus: &mut LedBus, syms: &[u8; 5], pos: usize) -> (steps: Vec<Step>)
    requires
        pos < DIGIT_COUNT,
        syms@[pos as int] < SYMBOL_COUNT,
    ensures
        steps@ == digit_steps(syms@, pos as int),
        final(led_bus)@ == old(led_bus)@.after_all(steps@),
        final(led_bus)@ == (Lines {
            data: data_levels(segment_pattern(syms@[pos as int] as int)),
            enable: Level::Low,
            addr_sel: Level::Low,
            write: Level::Low,
        }),
{
    let mut steps = led_bus.write_data(SEGMENT_LATCH, 0);
    let mut select = led_bus.write_data(DIGIT_LATCH, digit_address(pos));
    proof {
        lemma_after_all_concat(old(led_bus)@, steps@, select@);
    }
    steps.append(&mut select);
    let mut light = led_bus.write_data(SEGMENT_LATCH, encode(syms[pos]));
    proof {
        lemma_after_all_concat(old(led_bus)@, steps@, light@);
    }
    steps.append(&mut light);
    proof {
        lemma_after_all_push(old(led_bus)@, steps@, Step::Sleep(REFRESH_MILLIS));
    }
    steps.push(Step::Sleep(REFRESH_MILLIS));
    assert(steps@ =~= digit_steps(syms@, pos as int));
    steps
}

/// Plans one refresh cycle for what `disp` shows now.
///
/// The returned steps are to be carried out in order; `led_bus` afterwards
/// stands as they leave the lines, with the pattern of the last digit on the
/// data lines.
pub fn display_runner(led_bus: &mut LedBus, disp: &DisplayControl) -> (steps: Vec<Step>)
    ensures
        steps@ == refresh_steps(disp@),
        final(led_bus)@ == old(led_bus)@.after_all(steps@),
        final(led_bus)@ == (Lines {
            data: data_levels(segment_pattern(disp@[DIGIT_COUNT - 1] as int)),
            enable: Level::Low,
            addr_sel: Level::Low,
            write: Level::Low,
        }),
{
    let syms = disp.snapshot();
    let mut steps: Vec<Step> = Vec::new();
    let mut d: usize = 0;
    while d < 5
        invariant
            d <= DIGIT_COUNT,
            syms@ == disp@,
            forall|i: int| 0 <= i < DIGIT_COUNT ==> syms@[i] < SYMBOL_COUNT,
            steps@ == scan_steps(syms@, d as nat),
            led_bus@ == old(led_bus)@.after_all(steps@),
            d > 0 ==> led_bus@ == (Lines {
                data: data_levels(segment_pattern(syms@[d - 1] as int)),
                enable: Level::Low,
                addr_sel: Level::Low,
                write: Level::Low,
            }),
        decreases DIGIT_COUNT - d,
    {
        let mut digit = scan_digit(led_bus, &syms, d);
        proof {
            lemma_after_all_concat(old(led_bus)@, steps@, digit@);
        }
        steps.append(&mut digit);
        d = d + 1;
    }
    steps
}

/// A power of ten is at least one.
pub proof fn lemma_pow10_positive(k: nat)
    ensures
        pow10(k) >= 1,
    decreases k,
{
    if k > 0 {
        lemma_pow10_positive((k - 1) as nat);
    }
}

/// A power of ten with a sum as exponent is the product of the two powers.
pub proof fn lemma_pow10_adds(j: nat, k: nat)
    ensures
        pow10(j + k) == pow10(j) * pow10(k),
    decreases j,
{
    if j == 0 {
        assert(pow10(0) == 1);
        assert(pow10(k) == 1 * pow10(k));
    } else {
        lemma_pow10_adds((j - 1) as nat, k);
        assert(pow10(j + k) == 10 * pow10((j - 1 + k) as nat));
        assert(10 * (pow10((j - 1) as nat) * pow10(k)) == (10 * pow10((j - 1) as nat)) * pow10(k))
            by (nonlinear_arith);
    }
}

/// The last `n` decimal digits of a number are those of its remainder by the
/// `n`th power of ten.
pub proof fn lemma_digit_of_remainder(value: nat, n: nat, k: nat)
    requires
        k < n,
    ensures
        decimal_digit(value % pow10(n), k) == decimal_digit(value, k),
{
    let low = pow10(k) as int;
    let high = pow10((n - k - 1) as nat) as int;
    lemma_pow10_positive(k);
    lemma_pow10_positive((n - k - 1) as nat);
    lemma_pow10_adds(1, (n - k - 1) as nat);
    lemma_pow10_adds(k, (n - k) as nat);
    assert(pow10(1) == 10) by {
        assert(pow10(0) == 1);
        assert(pow10(1) == 10 * pow10(0));
    }
    assert(pow10((n - k) as nat) == 10 * high);
    assert(pow10(n) == low * (10 * high));
    lemma_mod_breakdown(value as int, low, 10 * high);
    let kept = (value as int / low) % (10 * high);
    assert(0 <= value as int % low < low);
    lemma_fundamental_div_mod_converse(
        value as int % (low * (10 * high)),
        low,
        kept,
        value as int % low,
    );
    lemma_mod_mod(value as int / low, 10, high);
}

/// A number that has more digits than the range has positions loses its
/// leading digits: what is shown is the number's remainder by the power of
/// ten that has one digit more than the range.
pub proof fn lemma_leading_digits_dropped(syms: Seq<u8>, start: int, end: int, value: nat)
    requires
        start <= end,
    ensures
        with_integer(syms, start, end, value) == with_integer(
            syms,
            start,
            end,
            value % pow10((end - start) as nat),
        ),
{
    let n = (end - start) as nat;
    let whole = with_integer(syms, start, end, value);
    let cut = with_integer(syms, start, end, value % pow10(n));
    assert forall|i: int| 0 <= i < syms.len() implies whole[i] == cut[i] by {
        if start <= i < end {
            lemma_digit_of_remainder(value, n, (end - 1 - i) as nat);
        }
    }
    assert(whole =~= cut);
}

/// A range of two positions shows the tens of `value` and then its units,
/// and leaves every other position alone. Of a number of three digits or
/// more the hundreds and what stands before them are dropped.
pub proof fn lemma_two_digit_field(syms: Seq<u8>, start: int, value: nat)
    requires
        0 <= start,
        start + 2 <= syms.len(),
    ensures
        ({
            let shown = with_integer(syms, start, start + 2, value);
            &&& shown.len() == syms.len()
            &&& shown[start] == ((value / 10) % 10) as u8
            &&& shown[start + 1] == (value % 10) as u8
            &&& value < 100 ==> shown[start] == (value / 10) as u8
            &&& forall|i: int|
                0 <= i < syms.len() && !(start <= i < start + 2) ==> shown[i] == syms[i]
            &&& shown == with_integer(syms, start, start + 2, value % 100)
        }),
{
    assert(pow10(0) == 1);
    assert(pow10(1) == 10) by {
        assert(pow10(1) == 10 * pow10(0));
    }
    assert(pow10(2) == 100) by {
        assert(pow10(2) == 10 * pow10(1));
    }
    lemma_leading_digits_dropped(syms, start, start + 2, value);
    let shown = with_integer(syms, start, start + 2, value);
    assert(shown[start] == decimal_digit(value, 1) as u8);
    assert(shown[start + 1] == decimal_digit(value, 0) as u8);
    assert(value / 1 == value);
}

/// Every symbol that `set_int` writes is a decimal digit.
pub proof fn lemma_digit_below_ten(value: nat, k: nat)
    ensures
        decimal_digit(value, k) < 10,
{
    lemma_pow10_positive(k);
}

/// A command that is valid keeps the display valid: five symbols, each of
/// them one that exists.
pub proof fn lemma_command_keeps_symbols(syms: Seq<u8>, command: DisplayCommand)
    requires
        syms.len() == DIGIT_COUNT,
        forall|i: int| 0 <= i < DIGIT_COUNT ==> syms[i] < SYMBOL_COUNT,
        command.valid(),
    ensures
        command.applied(syms).len() == DIGIT_COUNT,
        forall|i: int| 0 <= i < DIGIT_COUNT ==> command.applied(syms)[i] < SYMBOL_COUNT,
{
    match command {
        DisplayCommand::SetInt { start, end, val } => {
            assert forall|i: int| 0 <= i < DIGIT_COUNT implies command.applied(syms)[i]
                < SYMBOL_COUNT by {
                if start <= i < end {
                    lemma_digit_below_ten(val as nat, (end - 1 - i) as nat);
                }
            }
        },
        _ => {},
    }
}

} // verus!
