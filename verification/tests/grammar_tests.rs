use abnf_kit::errors::ParseError;
use abnf_kit::grammar_parser::{GrammarParser, TokenSource};
use abnf_kit::token::Token;

fn source_of(texts: &[&str]) -> TokenSource {
    let mut tokens = Vec::new();
    for text in texts {
        tokens.push(Token::new("word", text));
    }
    TokenSource::new(tokens)
}

#[test]
fn two_terminals_in_series_build_the_expected_tree() {
    let mut parser = GrammarParser::new();
    assert_eq!(Ok(()), parser.add_rules("rule = \"a\" \"b\";"));

    let mut tokens = source_of(&["a", "b"]);
    let tree = parser.parse("rule", &mut tokens).unwrap();
    assert_eq!("rule", tree.get_rule_name());
    assert_eq!(2, tree.get_children().len());
    assert_eq!("a", tree.get_children()[0].get_value());
    assert_eq!("b", tree.get_children()[1].get_value());
}

#[test]
fn a_mismatched_terminal_fails_after_consuming_the_match() {
    let mut parser = GrammarParser::new();
    assert_eq!(Ok(()), parser.add_rules("rule = \"a\" \"b\";"));

    let mut tokens = source_of(&["a", "c"]);
    assert_eq!(
        Err(ParseError::TerminalMismatch),
        parser.parse("rule", &mut tokens).map(|_| ())
    );
    // both tokens were pulled: "a" by the match, "c" by the failed match
    assert_eq!(
        Err(ParseError::PrematureEnd),
        tokens.next_token().map(|_| ())
    );
}

#[test]
fn a_branch_that_consumes_nothing_falls_through_to_the_next() {
    // the first alternative names an undefined rule, which fails without
    // pulling a token, so the second alternative sees a fresh source
    let mut parser = GrammarParser::new();
    assert_eq!(Ok(()), parser.add_rules("rule = opt1 / opt2;opt2 = \"y\";"));

    let mut tokens = source_of(&["y"]);
    let tree = parser.parse("rule", &mut tokens).unwrap();
    assert_eq!("rule", tree.get_rule_name());
    let select_child = &tree.get_children()[0];
    let labeled = &select_child.get_children()[0];
    assert_eq!("opt2", labeled.get_rule_name());
    assert_eq!("y", labeled.get_value());
}

#[test]
fn a_branch_that_consumes_tokens_before_failing_is_unrecoverable() {
    // the source has no rewind: "first" consumes "a" before failing, so
    // "second" starts past it and the whole alternation fails rather than
    // silently falling back
    let mut parser = GrammarParser::new();
    assert_eq!(
        Ok(()),
        parser.add_rules("rule = first / second;first = \"a\" \"x\";second = \"a\" \"y\";")
    );

    let mut tokens = source_of(&["a", "y"]);
    assert_eq!(
        Err(ParseError::PrematureEnd),
        parser.parse("rule", &mut tokens).map(|_| ())
    );
}

#[test]
fn an_optional_group_may_contribute_no_child() {
    let mut parser = GrammarParser::new();
    assert_eq!(Ok(()), parser.add_rules("rule = [\"a\"] \"b\";"));

    let mut tokens = source_of(&["a", "b"]);
    let tree = parser.parse("rule", &mut tokens).unwrap();
    assert_eq!(2, tree.get_children().len());
    assert_eq!(1, tree.get_children()[0].get_children().len());
    assert_eq!("a", tree.get_children()[0].get_children()[0].get_value());
    assert_eq!("b", tree.get_children()[1].get_value());
}

#[test]
fn a_failed_optional_group_still_consumes_its_tokens() {
    // the optional group swallows its failure but the pulled token is gone
    let mut parser = GrammarParser::new();
    assert_eq!(Ok(()), parser.add_rules("rule = [\"a\"] \"b\";"));

    let mut tokens = source_of(&["b"]);
    assert_eq!(
        Err(ParseError::PrematureEnd),
        parser.parse("rule", &mut tokens).map(|_| ())
    );
}

#[test]
fn groups_are_transparent() {
    let mut parser = GrammarParser::new();
    assert_eq!(Ok(()), parser.add_rules("rule = (\"a\");"));

    let mut tokens = source_of(&["a"]);
    let tree = parser.parse("rule", &mut tokens).unwrap();
    assert_eq!("rule", tree.get_rule_name());
    assert_eq!("a", tree.get_value());
}

#[test]
fn an_unknown_rule_name_is_reported() {
    let parser = GrammarParser::new();
    let mut tokens = source_of(&[]);
    assert_eq!(
        Err(ParseError::UnknownRuleReference),
        parser.parse("missing", &mut tokens).map(|_| ())
    );
}

#[test]
fn a_self_referential_rule_hits_the_depth_guard() {
    let mut parser = GrammarParser::new();
    assert_eq!(Ok(()), parser.add_rules("loop-rule = loop-rule;"));

    let mut tokens = source_of(&[]);
    assert_eq!(
        Err(ParseError::RecursionLimit),
        parser.parse("loop-rule", &mut tokens).map(|_| ())
    );
}

#[test]
fn range_nodes_are_left_unevaluated() {
    let mut parser = GrammarParser::new();
    assert_eq!(Ok(()), parser.add_rules("rng = %x61-7a;"));

    let mut tokens = source_of(&["a"]);
    assert_eq!(
        Err(ParseError::UnsupportedDefinition),
        parser.parse("rng", &mut tokens).map(|_| ())
    );
}

#[test]
fn repeat_nodes_are_left_unevaluated() {
    let mut parser = GrammarParser::new();
    assert_eq!(Ok(()), parser.add_rules("rep = 1*2\"a\";"));

    let mut tokens = source_of(&["a"]);
    assert_eq!(
        Err(ParseError::UnsupportedDefinition),
        parser.parse("rep", &mut tokens).map(|_| ())
    );
}

#[test]
fn rule_references_label_their_subtrees() {
    let mut parser = GrammarParser::new();
    assert_eq!(Ok(()), parser.add_rules("top = inner;inner = \"v\";"));

    let mut tokens = source_of(&["v"]);
    let tree = parser.parse("top", &mut tokens).unwrap();
    assert_eq!("top", tree.get_rule_name());
    let labeled = &tree.get_children()[0];
    assert_eq!("inner", labeled.get_rule_name());
    assert_eq!("v", labeled.get_value());
}

#[test]
fn get_rule_finds_defined_rules_only() {
    let mut parser = GrammarParser::new();
    assert_eq!(Ok(()), parser.add_rules("rule = \"a\";"));
    assert_eq!("rule", parser.get_rule("rule").unwrap().get_name());
    assert!(parser.get_rule("other").is_err());
}
