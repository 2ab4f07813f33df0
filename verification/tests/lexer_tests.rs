use abnf_kit::lexer_state::LexerState;
use abnf_kit::token_factory::TokenFactory;

#[test]
fn it_works() {
    assert_eq!(2 + 2, 4);
}

#[test]
fn parse_calc() {
    const INITIAL_STATE: &str = "INITIAL";

    const NUMBER_TOKEN: &str = r"^\d+";
    const NUMBER_TYPE: &str = "number";
    const NAME_TOKEN: &str = r"^[a-zA-Z_][a-zA-Z0-9_]*";
    const NAME_TYPE: &str = "name";
    const LITERAL_TOKEN: &str = r"^(\+?=|\+|;)";
    const LITERAL_TYPE: &str = "literal";

    let mut state = LexerState::new(INITIAL_STATE, ());
    state.set_eof("eof", "");
    state.set_ignore(r"^( |\t)");
    state.add_token(INITIAL_STATE, NUMBER_TOKEN, TokenFactory::new(NUMBER_TYPE));
    state.add_token(INITIAL_STATE, NAME_TOKEN, TokenFactory::new(NAME_TYPE));
    state.add_token(INITIAL_STATE, LITERAL_TOKEN, TokenFactory::new(LITERAL_TYPE));

    let src = "var += a + b +\t123 \t\t +456; var = 789";
    for (token_type, token_value) in vec![
        ("name", "var"),
        ("literal", "+="),
        ("name", "a"),
        ("literal", "+"),
        ("name", "b"),
        ("literal", "+"),
        ("number", "123"),
        ("literal", "+"),
        ("number", "456"),
        ("literal", ";"),
        ("name", "var"),
        ("literal", "="),
        ("number", "789"),
        ("eof", ""),
        ("eof", ""),
        ("eof", ""),
    ] {
        if let Ok(token) = state.next(src) {
            assert_eq!(token_type, token.get_type());
            assert_eq!(token_value, token.get_value());
        } else {
            panic!("error")
        }
    }
}

#[test]
fn push_pop_restores_state_over_three_levels() {
    let mut state = LexerState::new("s0", ());
    state.set_eof("eof", "");
    state.add_token("s0", "^a", TokenFactory::new("t").push_state("s1"));
    state.add_token("s1", "^b", TokenFactory::new("t").push_state("s2"));
    state.add_token("s2", "^c", TokenFactory::new("t").push_state("s3"));
    state.add_token("s3", "^x", TokenFactory::new("t").pop_state(1));
    state.add_token("s2", "^y", TokenFactory::new("t").pop_state(1));
    state.add_token("s1", "^z", TokenFactory::new("t").pop_state(1));

    let src = "abcxyz";
    let expected_states = ["s1", "s2", "s3", "s2", "s1", "s0"];
    for expected in expected_states {
        state.next(src).unwrap();
        let snapshot = state.dump();
        assert_eq!(expected, snapshot.get_token_snapshot().get_current_state());
    }
}

#[test]
fn pop_past_bottom_is_a_no_op() {
    let mut state = LexerState::new("s0", ());
    state.set_eof("eof", "");
    state.add_token("s0", "^a", TokenFactory::new("t").push_state("s1"));
    state.add_token("s1", "^b", TokenFactory::new("t").pop_state(5));

    let src = "ab";
    state.next(src).unwrap();
    state.next(src).unwrap();
    let snapshot = state.dump();
    assert_eq!("s0", snapshot.get_token_snapshot().get_current_state());
}

#[test]
fn end_of_input_is_idempotent() {
    let mut state = LexerState::new("s0", ());
    state.set_eof("done", "");
    state.add_token("s0", "^a", TokenFactory::new("t"));

    let src = "aa";
    assert_eq!("t", state.next(src).unwrap().get_type());
    assert_eq!("t", state.next(src).unwrap().get_type());
    for _ in 0..3 {
        let token = state.next(src).unwrap();
        assert_eq!("done", token.get_type());
        assert_eq!("", token.get_value());
    }
}

#[test]
fn snapshot_restores_position_and_mode() {
    let mut state = LexerState::new("s0", ());
    state.set_eof("eof", "");
    state.set_ignore(r"^ ");
    state.add_token("s0", "^[a-z]+", TokenFactory::new("word").push_state("s1"));
    state.add_token("s1", "^[0-9]+", TokenFactory::new("digits").pop_state(1));

    let src = "abc 123 xyz";
    assert_eq!("abc", state.next(src).unwrap().get_value());
    let snapshot = state.dump();
    assert_eq!("123", state.next(src).unwrap().get_value());
    state.restore(snapshot);
    let replayed = state.next(src).unwrap();
    assert_eq!("digits", replayed.get_type());
    assert_eq!("123", replayed.get_value());
    assert_eq!("xyz", state.next(src).unwrap().get_value());
}

#[test]
fn snapshot_replays_across_the_end_of_input() {
    let mut state = LexerState::new("s0", ());
    state.set_eof("eof", "");
    state.add_token("s0", "^[a-z]", TokenFactory::new("letter"));

    let src = "ab";
    assert_eq!("a", state.next(src).unwrap().get_value());
    let snapshot = state.dump();
    assert!(!snapshot.get_is_eof());
    assert_eq!("b", state.next(src).unwrap().get_value());
    assert_eq!("eof", state.next(src).unwrap().get_type());
    state.restore(snapshot);
    // the end flag went back with the capture, so tokens replay
    assert_eq!("b", state.next(src).unwrap().get_value());
    assert_eq!("eof", state.next(src).unwrap().get_type());
}

#[test]
fn locations_follow_lines_and_columns() {
    let mut state = LexerState::new("s0", ());
    state.set_eof("eof", "");
    state.set_ignore(r"^ ");
    state.add_token("s0", "^[a-z]+", TokenFactory::new("word"));
    state.add_token("s0", "^\n", TokenFactory::new("newline").lines(1));

    let src = "ab\ncd";
    let first = state.next(src).unwrap();
    assert_eq!(1, first.get_location().get_begin().get_line());
    assert_eq!(0, first.get_location().get_begin().get_column());
    assert_eq!(2, first.get_location().get_end().get_column());
    state.next(src).unwrap();
    let second = state.next(src).unwrap();
    assert_eq!("cd", second.get_value());
    assert_eq!(2, second.get_location().get_begin().get_line());
    assert_eq!(0, second.get_location().get_begin().get_column());
}
