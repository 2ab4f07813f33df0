use abnf_kit::errors::ParseError;
use abnf_kit::increment_offset::IncrementOffset;
use abnf_kit::location::Location;
use abnf_kit::position::Position;
use abnf_kit::token::Token;

#[test]
fn positions_order_lexicographically() {
    assert!(Position::new(1, 5) < Position::new(2, 0));
    assert!(Position::new(2, 1) < Position::new(2, 4));
    assert!(Position::new(3, 2) > Position::new(2, 9));
    assert!(Position::new(2, 2) == Position::new(2, 2));
}

#[test]
fn locations_keep_their_ends() {
    let location = Location::new(Position::new(1, 2), Position::new(3, 4));
    assert_eq!(1, location.get_begin().get_line());
    assert_eq!(2, location.get_begin().get_column());
    assert_eq!(3, location.get_end().get_line());
    assert_eq!(4, location.get_end().get_column());
}

#[test]
fn a_token_without_a_location_reports_the_zero_span() {
    let token = Token::new("kind", "text");
    assert_eq!("kind", token.get_type());
    assert_eq!("text", token.get_value());
    assert_eq!(0, token.get_location().get_begin().get_line());
    assert_eq!(0, token.get_location().get_end().get_column());
}

#[test]
fn attaching_a_location_keeps_kind_and_text() {
    let mut token = Token::new("kind", "text");
    token.set_location(Position::new(1, 0), Position::new(1, 4));
    assert_eq!("kind", token.get_type());
    assert_eq!("text", token.get_value());
    assert_eq!(4, token.get_location().get_end().get_column());
}

#[test]
fn increments_carry_their_counters() {
    let increment = IncrementOffset::new(7, 2);
    assert_eq!(7, increment.get_increment_offset());
    assert_eq!(2, increment.get_increment_lines());
}

#[test]
fn every_error_has_a_distinct_description() {
    let errors = [
        ParseError::LexicalMismatch,
        ParseError::PrematureEnd,
        ParseError::RangeBoundsInvalid,
        ParseError::EmptyOrMalformedAlternation,
        ParseError::UnknownTokenKind,
        ParseError::DuplicateRuleDefinition,
        ParseError::UndefinedRuleExtension,
        ParseError::UnknownRuleReference,
        ParseError::TerminalMismatch,
        ParseError::RecursionLimit,
        ParseError::UnsupportedDefinition,
    ];
    for (i, left) in errors.iter().enumerate() {
        assert!(!left.describe().is_empty());
        for right in errors.iter().skip(i + 1) {
            assert_ne!(left.describe(), right.describe());
        }
    }
}
