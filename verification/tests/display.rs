use wifi_clock::bus::{LedBus, Level, Step};
use wifi_clock::display::{
    display_runner, new, DisplayCommand, DIGIT_LATCH, REFRESH_MILLIS, SEGMENT_LATCH,
};
use wifi_clock::segments::{digit_address, encode, SYM_BLANK, SYM_COLON};

fn idle_bus() -> LedBus {
    LedBus::new([Level::Low; 8], Level::Low, Level::Low, Level::Low)
}

#[test]
fn new_display_is_blank() {
    assert_eq!(new().snapshot(), [SYM_BLANK; 5]);
    assert_eq!(new().snapshot(), [16, 16, 16, 16, 16]);
}

#[test]
fn set_sym_overwrites_one_position() {
    let mut disp = new();
    disp.set_sym(4, SYM_COLON);
    assert_eq!(disp.snapshot(), [16, 16, 16, 16, 17]);
    disp.set_sym(0, 9);
    assert_eq!(disp.snapshot(), [9, 16, 16, 16, 17]);
    disp.set_sym(0, 3);
    assert_eq!(disp.snapshot(), [3, 16, 16, 16, 17]);
}

#[test]
fn set_sym_range_overwrites_the_range_only() {
    let mut disp = new();
    disp.set_sym_range(1..4, 8);
    assert_eq!(disp.snapshot(), [16, 8, 8, 8, 16]);
    disp.set_sym_range(0..5, 0);
    assert_eq!(disp.snapshot(), [0; 5]);
    disp.set_sym_range(4..5, SYM_COLON);
    assert_eq!(disp.snapshot(), [0, 0, 0, 0, 17]);
}

#[test]
fn set_sym_range_without_positions_changes_nothing() {
    let mut disp = new();
    disp.set_sym_range(0..5, 1);
    disp.set_sym_range(2..2, 7);
    disp.set_sym_range(5..5, 7);
    disp.set_sym_range(4..1, 7);
    disp.set_sym_range(9..9, 7);
    disp.set_sym_range(9..3, 7);
    assert_eq!(disp.snapshot(), [1; 5]);
}

#[test]
fn set_int_writes_tens_then_units() {
    for v in 0u16..100 {
        let mut disp = new();
        disp.set_int(2..4, v);
        assert_eq!(disp.snapshot(), [16, 16, (v / 10) as u8, (v % 10) as u8, 16]);
    }
}

#[test]
fn set_int_drops_leading_digits_that_do_not_fit() {
    let mut disp = new();
    disp.set_int(2..4, 123);
    assert_eq!(disp.snapshot(), [16, 16, 2, 3, 16]);
    disp.set_int(0..2, 65535);
    assert_eq!(disp.snapshot(), [3, 5, 2, 3, 16]);
    disp.set_int(4..5, 1000);
    assert_eq!(disp.snapshot(), [3, 5, 2, 3, 0]);
}

#[test]
fn set_int_fills_the_whole_range() {
    let mut disp = new();
    disp.set_int(0..5, 65535);
    assert_eq!(disp.snapshot(), [6, 5, 5, 3, 5]);
    disp.set_int(0..5, 407);
    assert_eq!(disp.snapshot(), [0, 0, 4, 0, 7]);
    disp.set_int(1..4, 0);
    assert_eq!(disp.snapshot(), [0, 0, 0, 0, 7]);
}

#[test]
fn set_int_leaves_the_other_positions_alone() {
    let mut disp = new();
    disp.set_sym_range(0..5, 0xA);
    disp.set_int(2..4, 7);
    assert_eq!(disp.snapshot(), [0xA, 0xA, 0, 7, 0xA]);
    disp.set_int(3..3, 9);
    disp.set_int(4..2, 9);
    assert_eq!(disp.snapshot(), [0xA, 0xA, 0, 7, 0xA]);
}

#[test]
fn apply_does_what_the_command_says() {
    let mut by_command = new();
    let mut by_call = new();
    by_command.apply(DisplayCommand::SetSymRange { start: 0, end: 4, sym: 5 });
    by_call.set_sym_range(0..4, 5);
    assert_eq!(by_command.snapshot(), by_call.snapshot());
    by_command.apply(DisplayCommand::SetSym { pos: 4, sym: SYM_COLON });
    by_call.set_sym(4, SYM_COLON);
    assert_eq!(by_command.snapshot(), by_call.snapshot());
    by_command.apply(DisplayCommand::SetInt { start: 1, end: 3, val: 42 });
    by_call.set_int(1..3, 42);
    assert_eq!(by_command.snapshot(), by_call.snapshot());
    assert_eq!(by_command.snapshot(), [5, 4, 2, 5, 17]);
}

#[test]
fn refresh_cycle_lights_every_digit_in_turn() {
    assert_eq!((SEGMENT_LATCH, DIGIT_LATCH, REFRESH_MILLIS), (1, 0, 2));
    let mut disp = new();
    disp.set_int(0..2, 1);
    disp.set_int(2..4, 2);
    disp.set_sym(4, SYM_COLON);
    let syms = disp.snapshot();

    let mut bus = idle_bus();
    let steps = display_runner(&mut bus, &disp);

    let mut expected: Vec<Step> = Vec::new();
    let mut reference = idle_bus();
    for pos in 0..5 {
        expected.extend(reference.write_data(1, 0));
        expected.extend(reference.write_data(0, digit_address(pos)));
        expected.extend(reference.write_data(1, encode(syms[pos])));
        expected.push(Step::Sleep(2));
    }
    assert_eq!(steps.len(), 5 * 76);
    assert_eq!(steps, expected);
    assert_eq!(disp.snapshot(), syms);
}

#[test]
fn refresh_cycle_puts_address_and_pattern_on_the_data_lines() {
    let mut disp = new();
    disp.set_sym(0, 8);
    let steps = display_runner(&mut idle_bus(), &disp);
    let byte_at = |from: usize| -> u8 {
        let mut byte = 0u8;
        for i in 0..8 {
            match steps[from + i] {
                Step::Data(line, level) => {
                    assert_eq!(line, i);
                    if level.is_high() {
                        byte |= 1 << i;
                    }
                }
                other => panic!("step {} is {:?}", from + i, other),
            }
        }
        byte
    };
    // The first digit: dark, then select, then the pattern of the symbol 8.
    assert_eq!((byte_at(3), byte_at(14)), (1, 0x00));
    assert_eq!((byte_at(25 + 3), byte_at(25 + 14)), (0, 0x40));
    assert_eq!((byte_at(50 + 3), byte_at(50 + 14)), (1, 0xF7));
    assert_eq!(steps[75], Step::Sleep(2));
    // The second digit is blank and is selected by its own address.
    assert_eq!((byte_at(76 + 25 + 3), byte_at(76 + 25 + 14)), (0, 0x80));
    assert_eq!((byte_at(76 + 50 + 3), byte_at(76 + 50 + 14)), (1, 0x00));
}

#[test]
fn refresh_cycle_leaves_the_last_pattern_on_the_bus() {
    let mut disp = new();
    disp.set_sym(4, SYM_COLON);
    let mut bus = LedBus::new([Level::High; 8], Level::High, Level::High, Level::High);
    display_runner(&mut bus, &disp);
    let mut byte = 0u8;
    for i in 0..8 {
        if bus.data_level(i).is_high() {
            byte |= 1 << i;
        }
    }
    assert_eq!(byte, 0x22);
    assert_eq!(bus.enable_level(), Level::Low);
    assert_eq!(bus.addr_sel_level(), Level::Low);
    assert_eq!(bus.write_level(), Level::Low);
}

#[test]
fn commands_off_the_display_are_not_valid() {
    assert!(DisplayCommand::SetSym { pos: 4, sym: 19 }.is_valid());
    assert!(!DisplayCommand::SetSym { pos: 5, sym: 0 }.is_valid());
    assert!(!DisplayCommand::SetSym { pos: 0, sym: 20 }.is_valid());
    assert!(DisplayCommand::SetSymRange { start: 0, end: 5, sym: 16 }.is_valid());
    assert!(!DisplayCommand::SetSymRange { start: 0, end: 6, sym: 16 }.is_valid());
    assert!(!DisplayCommand::SetSymRange { start: 0, end: 5, sym: 20 }.is_valid());
    assert!(DisplayCommand::SetSymRange { start: 7, end: 7, sym: 0 }.is_valid());
    assert!(DisplayCommand::SetInt { start: 0, end: 5, val: 65535 }.is_valid());
    assert!(!DisplayCommand::SetInt { start: 4, end: 6, val: 1 }.is_valid());
    assert!(DisplayCommand::SetInt { start: 6, end: 4, val: 1 }.is_valid());
}
