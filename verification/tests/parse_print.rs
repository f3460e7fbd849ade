//! Parsing and canonical printing of whole expressions.

use dice_roll_parser::{parse, print};

#[test]
fn parse_solitary_int() {
    let input = String::from("1");
    let output = print(&parse(&input).expect("Failed to parse `1` for test"));
    assert_eq!(input, output)
}

#[test]
fn parse_solitary_dice_no_count() {
    let input = String::from("d20");
    let output = print(&parse(&input).expect("Failed to parse `d20` for test"));
    assert_eq!("1d20", output)
}

#[test]
fn parse_solitary_dice_with_count() {
    let input = String::from("3d6");
    let output = print(&parse(&input).expect("Failed to parse `3d6` for test"));
    assert_eq!(input, output)
}

#[test]
fn parse_solitary_remv_with_no_count_no_dice_count() {
    let input = String::from("d20rl");
    let output = print(&parse(&input).expect("Failed to parse `d20rl` for test"));
    assert_eq!("1d20r1l", output)
}

#[test]
fn parse_solitary_remv_with_count_no_dice_count() {
    let input = String::from("d20r2l");
    let output = print(&parse(&input).expect("Failed to parse `d20r2l` for test"));
    assert_eq!("1d20r2l", output)
}

#[test]
fn parse_solitary_remv_with_no_count_with_dice_count() {
    let input = String::from("2d20rl");
    let output = print(&parse(&input).expect("Failed to parse `2d20rl` for test"));
    assert_eq!("2d20r1l", output)
}

#[test]
fn parse_solitary_remv_with_count_with_dice_count() {
    let input = String::from("3d20r2l");
    let output = print(&parse(&input).expect("Failed to parse `3d20r2l` for test"));
    assert_eq!(input, output)
}

#[test]
fn parse_simple_add() {
    let input = String::from("2 + 6");
    let output = print(&parse(&input).expect("Failed to parse `2 + 6` for test"));
    assert_eq!(input, output)
}

#[test]
fn parse_simple_subtract() {
    let input = String::from("6 - 2");
    let output = print(&parse(&input).expect("Failed to parse `6 - 2` for test"));
    assert_eq!(input, output)
}

#[test]
fn parse_complex() {
    let input = String::from("15d10r3l-2d4rl+d3+7d7+66-2d4");
    let output = print(
        &parse(&input).expect("Failed to parse `15d10r3l - 2d4rl + d3 + 7d7 + 66 - 2d4` for test"),
    );
    assert_eq!("15d10r3l - 2d4r1l + 1d3 + 7d7 + 66 - 2d4", output)
}

#[test]
fn parse_remove_higher_direction() {
    let input = String::from("4d6r1h");
    let output = print(&parse(&input).expect("Failed to parse `4d6r1h` for test"));
    assert_eq!("4d6r1h", output)
}

#[test]
fn parse_remove_on_bare_integer() {
    // The grammar does not forbid a remove modifier on a plain integer.
    let input = String::from("5r2l");
    let output = print(&parse(&input).expect("Failed to parse `5r2l` for test"));
    assert_eq!("5r2l", output)
}

#[test]
fn parse_large_integer() {
    let input = String::from("4294967295");
    let output = print(&parse(&input).expect("Failed to parse `4294967295` for test"));
    assert_eq!("4294967295", output)
}

#[test]
fn parse_integer_accumulation_wraps() {
    // One past the largest 32-bit value: the digit accumulation wraps
    // modulo 2^32, so the canonical form is the wrapped value.
    let input = String::from("4296");
    let output = print(&parse(&input).expect("Failed to parse `4296` for test"));
    assert_eq!("4296", output);
    let wrapping = String::from("4294967296");
    let wrapped = print(&parse(&wrapping).expect("Failed to parse `4294967296` for test"));
    assert_eq!("0", wrapped);
}

#[test]
fn print_idempotent_on_reparse() {
    // Printing, re-parsing and printing again yields the same text.
    let inputs = ["d20rl", "15d10r3l-2d4rl+d3+7d7+66-2d4", "  7  ", "1 - 2 - 3"];
    for input in inputs {
        let first = print(&parse(&String::from(input)).expect("valid input must parse"));
        let second = print(&parse(&first).expect("canonical text must re-parse"));
        assert_eq!(first, second);
    }
}

#[test]
fn parse_skips_whitespace_everywhere() {
    let input = String::from(" 2 d 6 r 1 l ");
    let output = print(&parse(&input).expect("Failed to parse ` 2 d 6 r 1 l ` for test"));
    assert_eq!("2d6r1l", output)
}
