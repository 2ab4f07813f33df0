use abnf_kit::abnf_lexer::{
    abnf_token_eof, new_lexer_state, token_definer_type, token_end_type,
    token_left_options_type, token_left_parenthesis_type, token_name_type,
    token_right_options_type, token_right_parenthesis_type, token_select_type,
    token_terminal_type,
};
use abnf_kit::assemble::assemble_result;
use abnf_kit::definition::{BnfDefinition, RepeatTimes};
use abnf_kit::errors::ParseError;
use abnf_kit::rules::AbnfRules;

fn assert_token(src: &str, tokens: Vec<(&str, &str)>) {
    let mut lex_state = new_lexer_state();

    for (token_type, token_value) in tokens {
        if let Ok(token) = lex_state.next(src) {
            assert_eq!(token_type, token.get_type());
            assert_eq!(token_value, token.get_value());
        } else {
            panic!("error");
        }
    }
}

#[test]
fn test_simple_abnf() {
    assert_token(
        "token = name1 name2 \"name3\";",
        vec![
            (token_name_type(), "token"),
            (token_definer_type(), "="),
            (token_name_type(), "name1"),
            (token_name_type(), "name2"),
            (token_terminal_type(), "\"name3\""),
            (token_end_type(), ";"),
        ],
    );
}

#[test]
fn test_terminal_abnf() {
    assert_token(
        "token = \"\\\"foo\\\"\" \"bar\";",
        vec![
            (token_name_type(), "token"),
            (token_definer_type(), "="),
            (token_terminal_type(), "\"\\\"foo\\\"\""),
            (token_terminal_type(), "\"bar\""),
            (token_end_type(), ";"),
        ],
    );
}

#[test]
fn test_parenthesis_abnf() {
    assert_token(
        "token = (name1 (\"terminal string\"))name2((name3)name4);",
        vec![
            (token_name_type(), "token"),
            (token_definer_type(), "="),
            (token_left_parenthesis_type(), "("),
            (token_name_type(), "name1"),
            (token_left_parenthesis_type(), "("),
            (token_terminal_type(), "\"terminal string\""),
            (token_right_parenthesis_type(), ")"),
            (token_right_parenthesis_type(), ")"),
            (token_name_type(), "name2"),
            (token_left_parenthesis_type(), "("),
            (token_left_parenthesis_type(), "("),
            (token_name_type(), "name3"),
            (token_right_parenthesis_type(), ")"),
            (token_name_type(), "name4"),
            (token_right_parenthesis_type(), ")"),
            (token_end_type(), ";"),
        ],
    )
}

#[test]
fn test_options_abnf() {
    assert_token(
        "token = [option-token1 \";\" option-token2 (parenthesis [option-token3])];",
        vec![
            (token_name_type(), "token"),
            (token_definer_type(), "="),
            (token_left_options_type(), "["),
            (token_name_type(), "option-token1"),
            (token_terminal_type(), "\";\""),
            (token_name_type(), "option-token2"),
            (token_left_parenthesis_type(), "("),
            (token_name_type(), "parenthesis"),
            (token_left_options_type(), "["),
            (token_name_type(), "option-token3"),
            (token_right_options_type(), "]"),
            (token_right_parenthesis_type(), ")"),
            (token_right_options_type(), "]"),
        ],
    )
}

#[test]
fn test_select_abnf() {
    assert_token(
        "token = choose-1 / choose-2 / choose-3;",
        vec![
            (token_name_type(), "token"),
            (token_definer_type(), "="),
            (token_name_type(), "choose-1"),
            (token_select_type(), "/"),
            (token_name_type(), "choose-2"),
            (token_select_type(), "/"),
            (token_name_type(), "choose-3"),
            (token_end_type(), ";"),
        ],
    )
}

#[test]
fn abnf_source_ends_in_eof_token() {
    assert_token(
        "token = name1;",
        vec![
            (token_name_type(), "token"),
            (token_definer_type(), "="),
            (token_name_type(), "name1"),
            (token_end_type(), ";"),
            (abnf_token_eof(), ""),
            (abnf_token_eof(), ""),
        ],
    )
}

#[test]
fn test_definition_series() {
    let src = "rule = rule1 (rule2 / rule3) [rule4 rule5];";
    let mut lex_state = new_lexer_state();

    let _ = lex_state.next(src);
    let _ = lex_state.next(src);

    if let Ok(definition) = BnfDefinition::new(src, &mut lex_state) {
        match *definition {
            BnfDefinition::Series(rules) => {
                assert_eq!(3, rules.len());
            },
            _ => panic!("error type"),
        }
    } else {
        panic!("error");
    }
}

#[test]
fn test_definition_select() {
    let src = "rule = rule1 / rule2 / rule3 / rule4 (rule5 rule6) / rule7;";
    let mut lex_state = new_lexer_state();

    let _ = lex_state.next(src);
    let _ = lex_state.next(src);

    if let Ok(definition) = BnfDefinition::new(src, &mut lex_state) {
        match *definition {
            BnfDefinition::Select(rules) => {
                assert_eq!(5, rules.len());
            },
            _ => panic!("error type"),
        }
    } else {
        panic!("error");
    }
}

#[test]
fn test_definition_group() {
    let src = "rule = (rule1 (rule2 rule3));";
    let mut lex_state = new_lexer_state();

    let _ = lex_state.next(src);
    let _ = lex_state.next(src);

    if let Ok(definition) = BnfDefinition::new(src, &mut lex_state) {
        match *definition {
            BnfDefinition::Group(_) => {},
            _ => panic!("error type"),
        }
    } else {
        panic!("error");
    }
}

#[test]
fn test_definition_options() {
    let src = "rule = [rule1 (rule2 rule3) / rule4];";
    let mut lex_state = new_lexer_state();

    let _ = lex_state.next(src);
    let _ = lex_state.next(src);

    if let Ok(definition) = BnfDefinition::new(src, &mut lex_state) {
        match *definition {
            BnfDefinition::Options(_) => {},
            _ => panic!("error type"),
        }
    } else {
        panic!("error");
    }
}

#[test]
fn test_definition_terminal() {
    let src = "rule = \"terminal\";";
    let mut lex_state = new_lexer_state();

    let _ = lex_state.next(src);
    let _ = lex_state.next(src);

    if let Ok(definition) = BnfDefinition::new(src, &mut lex_state) {
        match *definition {
            BnfDefinition::Terminal(_) => {},
            _ => panic!("error type"),
        }
    } else {
        panic!("error");
    }
}

#[test]
fn test_definition_range() {
    let src = "rule = %x6b-7f;";
    let mut lex_state = new_lexer_state();

    let _ = lex_state.next(src);
    let _ = lex_state.next(src);

    if let Ok(definition) = BnfDefinition::new(src, &mut lex_state) {
        match *definition {
            BnfDefinition::Range(_) => {},
            _ => panic!("error type"),
        }
    } else {
        panic!("error");
    }
}

#[test]
fn test_definition_variable_rule() {
    let src = "rule = 1*2(rule1 rule2 / rule3);";
    let mut lex_state = new_lexer_state();

    let _ = lex_state.next(src);
    let _ = lex_state.next(src);

    if let Ok(definition) = BnfDefinition::new(src, &mut lex_state) {
        match *definition {
            BnfDefinition::Repeat(_) => {},
            _ => panic!("error type"),
        }
    } else {
        panic!("error");
    }
}

#[test]
fn series_children_stay_in_source_order() {
    let src = "rule = rule1 rule2 rule3;";
    let mut lex_state = new_lexer_state();

    let _ = lex_state.next(src);
    let _ = lex_state.next(src);

    let definition = BnfDefinition::new(src, &mut lex_state).unwrap();
    match *definition {
        BnfDefinition::Series(elements) => {
            assert_eq!(3, elements.len());
            for (element, expected) in elements.iter().zip(["rule1", "rule2", "rule3"]) {
                match &**element {
                    BnfDefinition::Rule(name) => assert_eq!(expected, name),
                    _ => panic!("error type"),
                }
            }
        },
        _ => panic!("error type"),
    }
}

#[test]
fn select_branches_collapse_by_the_single_multi_rule() {
    let src = "rule = rule1 / rule2 rule3 / rule4;";
    let mut lex_state = new_lexer_state();

    let _ = lex_state.next(src);
    let _ = lex_state.next(src);

    let definition = BnfDefinition::new(src, &mut lex_state).unwrap();
    match *definition {
        BnfDefinition::Select(branches) => {
            assert_eq!(3, branches.len());
            assert!(matches!(&*branches[0], BnfDefinition::Rule(_)));
            match &*branches[1] {
                BnfDefinition::Series(elements) => assert_eq!(2, elements.len()),
                _ => panic!("error type"),
            }
            assert!(matches!(&*branches[2], BnfDefinition::Rule(_)));
        },
        _ => panic!("error type"),
    }
}

#[test]
fn single_element_body_is_not_wrapped() {
    let src = "rule = rule1;";
    let mut lex_state = new_lexer_state();

    let _ = lex_state.next(src);
    let _ = lex_state.next(src);

    let definition = BnfDefinition::new(src, &mut lex_state).unwrap();
    match *definition {
        BnfDefinition::Rule(name) => assert_eq!("rule1", name),
        _ => panic!("error type"),
    }
}

#[test]
fn quoted_terminal_is_stored_without_quotes() {
    let src = "rule = \"lit\";";
    let mut lex_state = new_lexer_state();

    let _ = lex_state.next(src);
    let _ = lex_state.next(src);

    let definition = BnfDefinition::new(src, &mut lex_state).unwrap();
    match *definition {
        BnfDefinition::Terminal(text) => assert_eq!("lit", text),
        _ => panic!("error type"),
    }
}

#[test]
fn range_bounds_decode_exactly() {
    let definition = BnfDefinition::impl_range_new("%x6b-7f").unwrap();
    match *definition {
        BnfDefinition::Range((begin, end)) => {
            assert_eq!(0x6b, begin);
            assert_eq!(0x7f, end);
        },
        _ => panic!("error type"),
    }
}

#[test]
fn range_with_begin_not_below_end_is_rejected() {
    assert_eq!(
        Err(ParseError::RangeBoundsInvalid),
        BnfDefinition::impl_range_new("%x7f-6b").map(|_| ())
    );
    assert_eq!(
        Err(ParseError::RangeBoundsInvalid),
        BnfDefinition::impl_range_new("%d10-10").map(|_| ())
    );
}

#[test]
fn range_error_surfaces_through_the_driver() {
    let mut builder = AbnfRules::new();
    assert_eq!(Err(ParseError::RangeBoundsInvalid), builder.parse("rule = %x7f-6b;"));
}

#[test]
fn repeat_bounds_decode_exactly() {
    let src = "rule = 1*2(rule1);";
    let mut lex_state = new_lexer_state();

    let _ = lex_state.next(src);
    let _ = lex_state.next(src);

    let definition = BnfDefinition::new(src, &mut lex_state).unwrap();
    match *definition {
        BnfDefinition::Repeat((begin, end, _)) => {
            assert_eq!(RepeatTimes::Times(1), begin);
            assert_eq!(RepeatTimes::Times(2), end);
        },
        _ => panic!("error type"),
    }
}

#[test]
fn bare_star_means_zero_to_unbounded() {
    let src = "rule = *(rule1);";
    let mut lex_state = new_lexer_state();

    let _ = lex_state.next(src);
    let _ = lex_state.next(src);

    let definition = BnfDefinition::new(src, &mut lex_state).unwrap();
    match *definition {
        BnfDefinition::Repeat((begin, end, _)) => {
            assert_eq!(RepeatTimes::Times(0), begin);
            assert_eq!(RepeatTimes::Infinity, end);
        },
        _ => panic!("error type"),
    }
}

#[test]
fn test_build_line() {
    let mut builder = AbnfRules::new();

    assert_eq!(Ok(()), builder.parse("rule = rule2 / rule3;"));

    assert_eq!(1, builder.result().len());
}

#[test]
fn test_build_twice_line() {
    let mut builder = AbnfRules::new();

    assert_eq!(Ok(()), builder.parse("rule = rule2 / rule3;"));
    assert_eq!(Ok(()), builder.parse("rule2 = rule3 / rule4;"));

    assert_eq!(2, builder.result().len());
}

#[test]
fn test_build_multi_lines() {
    let mut builder = AbnfRules::new();

    assert_eq!(
        Ok(()),
        builder.parse("rule = rule2 / rule3;rule2 = rule3 / rule4;")
    );

    assert_eq!(2, builder.result().len());
}

#[test]
fn test_build_twice_multi_lines() {
    let mut builder = AbnfRules::new();

    assert_eq!(
        Ok(()),
        builder.parse("rule = rule2 / rule3;rule2 = rule3 / rule4;")
    );
    assert_eq!(
        Ok(()),
        builder.parse("rule3 = rule2 / rule3;rule4 = rule3 / rule4;rule5 = rule6;")
    );

    assert_eq!(5, builder.result().len());
}

#[test]
fn test_build_append() {
    let mut builder = AbnfRules::new();

    assert_eq!(
        Ok(()),
        builder.parse("rule = rule2 / rule3;rule =/ rule3 / rule4;")
    );

    assert_eq!(1, builder.result().len());
}

#[test]
fn extension_keeps_the_original_as_leading_branches() {
    let mut builder = AbnfRules::new();

    assert_eq!(
        Ok(()),
        builder.parse("rule = rule2 / rule3;rule =/ rule3 / rule4;")
    );

    let rule = &builder.result()[0];
    assert_eq!("rule", rule.get_name());
    match rule.get_definition() {
        BnfDefinition::Select(branches) => {
            assert_eq!(3, branches.len());
            match &*branches[0] {
                BnfDefinition::Rule(name) => assert_eq!("rule2", name),
                _ => panic!("error type"),
            }
            match &*branches[1] {
                BnfDefinition::Rule(name) => assert_eq!("rule3", name),
                _ => panic!("error type"),
            }
        },
        _ => panic!("error type"),
    }
}

#[test]
fn extension_promotes_a_single_node_to_a_select() {
    let mut builder = AbnfRules::new();

    assert_eq!(Ok(()), builder.parse("rule = rule2;rule =/ rule3;"));

    let rule = &builder.result()[0];
    match rule.get_definition() {
        BnfDefinition::Select(branches) => {
            assert_eq!(2, branches.len());
            match &*branches[0] {
                BnfDefinition::Rule(name) => assert_eq!("rule2", name),
                _ => panic!("error type"),
            }
        },
        _ => panic!("error type"),
    }
}

#[test]
fn duplicate_first_definition_is_rejected() {
    let mut builder = AbnfRules::new();
    assert_eq!(
        Err(ParseError::DuplicateRuleDefinition),
        builder.parse("rule = a;rule = b;")
    );
}

#[test]
fn extension_of_an_undefined_name_is_rejected() {
    let mut builder = AbnfRules::new();
    assert_eq!(Err(ParseError::UndefinedRuleExtension), builder.parse("rule =/ a;"));
}

#[test]
fn lexical_mismatch_is_reported() {
    let mut builder = AbnfRules::new();
    assert_eq!(Err(ParseError::LexicalMismatch), builder.parse("rule = @;"));
}

#[test]
fn missing_terminator_is_a_premature_end() {
    let mut builder = AbnfRules::new();
    assert_eq!(Err(ParseError::PrematureEnd), builder.parse("rule = a"));
}

#[test]
fn range_after_a_repeat_count_is_an_unknown_token_kind() {
    let mut builder = AbnfRules::new();
    assert_eq!(Err(ParseError::UnknownTokenKind), builder.parse("rule = 3 %x61-62;"));
}

#[test]
fn an_empty_alternative_list_is_malformed() {
    assert_eq!(
        Err(ParseError::EmptyOrMalformedAlternation),
        assemble_result(Vec::new(), false).map(|_| ())
    );
    assert_eq!(
        Err(ParseError::EmptyOrMalformedAlternation),
        assemble_result(Vec::new(), true).map(|_| ())
    );
}

#[test]
fn an_alternation_with_one_branch_is_malformed() {
    let single = vec![Box::new(BnfDefinition::Rule(String::from("only")))];
    assert_eq!(
        Err(ParseError::EmptyOrMalformedAlternation),
        assemble_result(single, true).map(|_| ())
    );
}
