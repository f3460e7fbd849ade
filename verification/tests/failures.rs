//! Inputs that must be rejected, and the failure each one yields.

use dice_roll_parser::{parse, Construct, ParseFailure};

#[test]
fn fails_on_missing_dice_size() {
    let r = parse(&String::from("d"));
    assert_eq!(
        r.unwrap_err(),
        ParseFailure::UnexpectedEndOfInput { construct: Construct::DiceSize, index: 0 }
    );
}

#[test]
fn fails_on_missing_remove_direction() {
    let r = parse(&String::from("2d20r"));
    assert!(matches!(
        r.unwrap_err(),
        ParseFailure::UnexpectedEndOfInput { construct: Construct::RemoveDirection, .. }
    ));
}

#[test]
fn fails_on_trailing_input() {
    let r = parse(&String::from("3d6 3"));
    assert!(matches!(r.unwrap_err(), ParseFailure::TrailingInput { .. }));
}

#[test]
fn fails_on_unrecognized_character() {
    let r = parse(&String::from("@"));
    assert_eq!(r.unwrap_err(), ParseFailure::LexError { character: '@', index: 0 });
}

#[test]
fn fails_on_lex_error_position() {
    let r = parse(&String::from("3d6?"));
    assert_eq!(r.unwrap_err(), ParseFailure::LexError { character: '?', index: 3 });
}

#[test]
fn fails_on_empty_input() {
    let r = parse(&String::from(""));
    assert!(matches!(
        r.unwrap_err(),
        ParseFailure::UnexpectedEndOfInput { construct: Construct::DiceCount, .. }
    ));
}

#[test]
fn fails_on_wrong_token_after_dice() {
    let r = parse(&String::from("2dd"));
    assert!(matches!(
        r.unwrap_err(),
        ParseFailure::UnexpectedToken { construct: Construct::DiceSize, .. }
    ));
}

#[test]
fn fails_on_wrong_token_after_remove() {
    let r = parse(&String::from("2d20r+"));
    assert!(matches!(
        r.unwrap_err(),
        ParseFailure::UnexpectedToken { construct: Construct::RemoveDirection, .. }
    ));
}

#[test]
fn fails_on_leading_operator() {
    let r = parse(&String::from("+2"));
    assert!(matches!(
        r.unwrap_err(),
        ParseFailure::UnexpectedToken { construct: Construct::DiceCount, .. }
    ));
}

#[test]
fn fails_on_missing_right_operand() {
    let r = parse(&String::from("2+"));
    assert!(matches!(r.unwrap_err(), ParseFailure::UnexpectedEndOfInput { .. }));
}
