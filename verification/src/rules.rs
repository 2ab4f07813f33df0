//! The rule table and the top-level driver: read `name = body;` and
//! `name =/ body;` definitions from ABNF source text, first-definition
//! rejecting an existing name and extension rejecting a missing one.

use vstd::prelude::*;
use crate::abnf_lexer::{new_lexer_state, BnfState};
use crate::definition::{
    body_rel, compile_fuel, compile_outcome, err_witness, split_witness, BnfDefinition, DefView,
};
use crate::errors::ParseError;
use crate::lexer_state::{
    lemma_lex_steps_concat, lemma_lex_steps_cons, lex_steps, step_err, step_ok, LexerState,
    TokView,
};
use crate::rule::{select_append, AbnfRule, RuleV};

verus! {

/// The index of the first rule at or after `i` with the given name.
pub open spec fn find_rv(rs: Seq<RuleV>, name: Seq<char>, i: int) -> Option<int>
    decreases rs.len() - i,
        when 0 <= i <= rs.len()
{
    if i >= rs.len() {
        None
    } else if rs[i].name == name {
        Some(i)
    } else {
        find_rv(rs, name, i + 1)
    }
}

/// First definition of a name: the table grows by one rule.
pub open spec fn define_rv(rs: Seq<RuleV>, name: Seq<char>, def: DefView) -> Seq<RuleV> {
    rs.push(RuleV { name, def })
}

/// Extension of the rule at `i`: its definition gains one alternative.
pub open spec fn extend_rv(rs: Seq<RuleV>, i: int, def: DefView) -> Seq<RuleV> {
    rs.update(i, RuleV { name: rs[i].name, def: select_append(rs[i].def, def) })
}

/// Whether the token trace `ts` drives the table `rs` exactly to the
/// result and final table in `out`: rule definitions are read one after
/// the other until the end-of-input token; each one's body compiles per
/// `body_rel` with the guard `body_fuel`.
pub open spec fn rules_rel(
    ts: Seq<TokView>,
    rs: Seq<RuleV>,
    fuel: nat,
    body_fuel: nat,
    out: (Result<(), ParseError>, Seq<RuleV>),
) -> bool
    decreases fuel,
{
    if fuel == 0 {
        ts.len() == 0 && out == (Err::<(), ParseError>(ParseError::RecursionLimit), rs)
    } else if ts.len() == 0 {
        false
    } else {
        let t = ts[0];
        let rest = ts.drop_first();
        if t.ty == "abnf_token_eof"@ {
            rest.len() == 0 && out == (Ok::<(), ParseError>(()), rs)
        } else if rest.len() == 0 {
            false
        } else {
            let d = rest[0];
            let rest2 = rest.drop_first();
            if d.text == "="@ {
                match find_rv(rs, t.text, 0) {
                    Some(_) => rest2.len() == 0 && out == (
                        Err::<(), ParseError>(ParseError::DuplicateRuleDefinition),
                        rs,
                    ),
                    None => {
                        ||| (exists|k: int, v: DefView|
                            #[trigger] split_witness(k, v) && 0 <= k <= rest2.len() && body_rel(
                                rest2.subrange(0, k),
                                "abnf_token_end"@,
                                Seq::<DefView>::empty(),
                                true,
                                false,
                                body_fuel,
                                Ok(v),
                            ) && rules_rel(
                                rest2.subrange(k, rest2.len() as int),
                                define_rv(rs, t.text, v),
                                (fuel - 1) as nat,
                                body_fuel,
                                out,
                            ))
                        ||| (exists|e: ParseError|
                            #[trigger] err_witness(e) && body_rel(
                                rest2,
                                "abnf_token_end"@,
                                Seq::<DefView>::empty(),
                                true,
                                false,
                                body_fuel,
                                Err(e),
                            ) && out == (Err::<(), ParseError>(e), rs))
                    },
                }
            } else if d.text == "=/"@ {
                match find_rv(rs, t.text, 0) {
                    None => rest2.len() == 0 && out == (
                        Err::<(), ParseError>(ParseError::UndefinedRuleExtension),
                        rs,
                    ),
                    Some(i) => {
                        ||| (exists|k: int, v: DefView|
                            #[trigger] split_witness(k, v) && 0 <= k <= rest2.len() && body_rel(
                                rest2.subrange(0, k),
                                "abnf_token_end"@,
                                Seq::<DefView>::empty(),
                                true,
                                false,
                                body_fuel,
                                Ok(v),
                            ) && rules_rel(
                                rest2.subrange(k, rest2.len() as int),
                                extend_rv(rs, i, v),
                                (fuel - 1) as nat,
                                body_fuel,
                                out,
                            ))
                        ||| (exists|e: ParseError|
                            #[trigger] err_witness(e) && body_rel(
                                rest2,
                                "abnf_token_end"@,
                                Seq::<DefView>::empty(),
                                true,
                                false,
                                body_fuel,
                                Err(e),
                            ) && out == (Err::<(), ParseError>(e), rs))
                    },
                }
            } else {
                rest2.len() == 0 && out == (Err::<(), ParseError>(ParseError::UnknownTokenKind), rs)
            }
        }
    }
}

/// Whether one driver run on engine `l0` against `src` consumed the trace
/// `ts`, left the engine in `l1`, and drove the table from `rs0` to `rs1`
/// returning `r` — or stopped where the tokenizer itself failed.
pub open spec fn driver_outcome(
    l0: LexerState<BnfState>,
    src: Seq<char>,
    ts: Seq<TokView>,
    l1: LexerState<BnfState>,
    rs0: Seq<RuleV>,
    rs1: Seq<RuleV>,
    fuel: nat,
    body_fuel: nat,
    r: Result<(), ParseError>,
) -> bool {
    ||| (lex_steps(l0, src, ts, l1) && rules_rel(ts, rs0, fuel, body_fuel, (r, rs1)))
    ||| (exists|m: LexerState<BnfState>, e: ParseError|
        r == Err::<(), ParseError>(e) && lex_steps(l0, src, ts, m) && #[trigger] step_err(
            m,
            src,
            e,
            l1,
        ))
}

/// A freshly configured ABNF tokenizer: its starting cursor, its end
/// token, its ignorable pattern and — under `abnf_patterns_valid` — its
/// whole lexical-state table.
pub open spec fn fresh_abnf_cursor(l: LexerState<BnfState>) -> bool {
    &&& l.wf()
    &&& l.offset_spec() == 0
    &&& l.line_spec() == 1
    &&& l.line_offset_spec() == 0
    &&& !l.is_eof_spec()
    &&& l.stack_spec() == Seq::<Seq<char>>::empty()
    &&& l.current_spec() == "abnf_state_init"@
    &&& l.eof_spec() == Some(("abnf_token_eof"@, ""@))
    &&& (crate::pattern::regex_valid("^( |\\t)"@) ==> l.ignore_spec() == Some("^( |\\t)"@))
    &&& l.states_spec().len() == 9
    &&& (crate::abnf_lexer::abnf_patterns_valid() ==> crate::abnf_lexer::abnf_state_table(
        l.states_spec(),
    ))
}

/// The rule table: rule names mapped to their definitions, grown by the
/// driver and read by the interpreter.
pub struct AbnfRules {
    rules: Vec<AbnfRule>,
}

impl AbnfRules {
    /// The stored rules, in definition order.
    pub closed spec fn rules_seq(&self) -> Seq<AbnfRule> {
        self.rules@
    }

    /// The mathematical shape of the table.
    pub open spec fn rules_view(&self) -> Seq<RuleV> {
        self.rules_seq().map_values(|r: AbnfRule| r.rv())
    }

    pub fn new() -> (r: AbnfRules)
        ensures
            r.rules_view() == Seq::<RuleV>::empty(),
    {
        let r = AbnfRules { rules: Vec::new() };
        proof {
            assert(r.rules_view() =~= Seq::<RuleV>::empty());
        }
        r
    }

    /// The stored rules, for callers that want to walk them.
    pub fn result(&self) -> (r: &Vec<AbnfRule>)
        ensures
            r@ == self.rules_seq(),
    {
        &self.rules
    }

    /// The index of the rule with the given name, if any.
    fn find_index(&self, name: &str) -> (r: Option<usize>)
        ensures
            (match r {
                Some(i) => find_rv(self.rules_view(), name@, 0) == Some(i as int) && i
                    < self.rules_seq().len(),
                None => find_rv(self.rules_view(), name@, 0) is None,
            }),
    {
        let name_string = name.to_owned();
        let n = self.rules.len();
        let mut i: usize = 0;
        while i < n
            invariant
                0 <= i <= n,
                n == self.rules_seq().len(),
                name_string@ == name@,
                self.rules_view().len() == n,
                forall|k: int|
                    0 <= k < n ==> #[trigger] self.rules_view()[k] == self.rules_seq()[k].rv(),
                find_rv(self.rules_view(), name@, 0) == find_rv(
                    self.rules_view(),
                    name@,
                    i as int,
                ),
            ensures
                0 <= i <= n,
                n == self.rules_seq().len(),
                i < n ==> find_rv(self.rules_view(), name@, 0) == Some(i as int),
                i == n ==> find_rv(self.rules_view(), name@, 0) is None,
            decreases n - i,
        {
            if self.rules[i].get_name().to_owned() == name_string {
                break ;
            }
            i = i + 1;
        }
        if i < n {
            Some(i)
        } else {
            None
        }
    }

    /// Look a rule up by name.
    pub fn get(&self, rule_key: &str) -> (r: Option<&AbnfRule>)
        ensures
            (match find_rv(self.rules_view(), rule_key@, 0) {
                Some(i) => r matches Some(ru) && ru.rv() == self.rules_view()[i],
                None => r is None,
            }),
    {
        match self.find_index(rule_key) {
            Some(i) => Some(&self.rules[i]),
            None => None,
        }
    }

    /// First definition of a name: fails if the name already exists,
    /// otherwise the table grows by this one rule.
    pub fn define(&mut self, rule_name: &str, definition: Box<BnfDefinition>) -> (r: Result<
        (),
        ParseError,
    >)
        ensures
            (match find_rv(old(self).rules_view(), rule_name@, 0) {
                Some(_) => r == Err::<(), ParseError>(ParseError::DuplicateRuleDefinition)
                    && final(self).rules_view() == old(self).rules_view(),
                None => r == Ok::<(), ParseError>(()) && final(self).rules_view() == define_rv(
                    old(self).rules_view(),
                    rule_name@,
                    (*definition).dview(),
                ),
            }),
    {
        match self.find_index(rule_name) {
            Some(_) => Err(ParseError::DuplicateRuleDefinition),
            None => {
                let ghost pre = self.rules@;
                self.rules.push(AbnfRule::new(rule_name, definition));
                proof {
                    assert(self.rules_view() =~= define_rv(
                        pre.map_values(|r: AbnfRule| r.rv()),
                        rule_name@,
                        (*definition).dview(),
                    ));
                }
                Ok(())
            },
        }
    }

    /// Extension of a name: fails if the name does not exist, otherwise
    /// that rule's definition gains the new alternative as a further
    /// `Select` branch.
    pub fn extend(&mut self, rule_name: &str, definition: Box<BnfDefinition>) -> (r: Result<
        (),
        ParseError,
    >)
        ensures
            (match find_rv(old(self).rules_view(), rule_name@, 0) {
                None => r == Err::<(), ParseError>(ParseError::UndefinedRuleExtension)
                    && final(self).rules_view() == old(self).rules_view(),
                Some(i) => r == Ok::<(), ParseError>(()) && final(self).rules_view() == extend_rv(
                    old(self).rules_view(),
                    i,
                    (*definition).dview(),
                ),
            }),
    {
        match self.find_index(rule_name) {
            None => Err(ParseError::UndefinedRuleExtension),
            Some(i) => {
                let ghost pre = self.rules@;
                let mut taken = self.rules.remove(i);
                taken.append_select(definition);
                self.rules.insert(i, taken);
                proof {
                    assert(self.rules@ =~= pre.update(i as int, self.rules@[i as int]));
                    assert(self.rules_view() =~= extend_rv(
                        pre.map_values(|r: AbnfRule| r.rv()),
                        i as int,
                        (*definition).dview(),
                    ));
                }
                Ok(())
            },
        }
    }

    /// Read rule definitions from ABNF source text into this table, with a
    /// freshly configured ABNF tokenizer.
    pub fn parse(&mut self, src: &str) -> (r: Result<(), ParseError>)
        ensures
            exists|l0: LexerState<BnfState>, l1: LexerState<BnfState>, ts: Seq<TokView>|
                fresh_abnf_cursor(l0) && #[trigger] driver_outcome(
                    l0,
                    src@,
                    ts,
                    l1,
                    old(self).rules_view(),
                    final(self).rules_view(),
                    compile_fuel(src@),
                    compile_fuel(src@),
                    r,
                ),
    {
        let mut lexer = new_lexer_state();
        let ghost l0 = lexer;
        let r = self.parse_with(src, &mut lexer);
        proof {
            let ts = choose|ts: Seq<TokView>|
                #[trigger] driver_outcome(
                    l0,
                    src@,
                    ts,
                    lexer,
                    old(self).rules_view(),
                    self.rules_view(),
                    compile_fuel(src@),
                    compile_fuel(src@),
                    r,
                );
            assert(fresh_abnf_cursor(l0));
            assert(driver_outcome(
                l0,
                src@,
                ts,
                lexer,
                old(self).rules_view(),
                self.rules_view(),
                compile_fuel(src@),
                compile_fuel(src@),
                r,
            ));
        }
        r
    }

    /// Read rule definitions from ABNF source text into this table,
    /// pulling tokens from the given engine.
    pub fn parse_with(&mut self, src: &str, lexer: &mut LexerState<BnfState>) -> (r: Result<
        (),
        ParseError,
    >)
        requires
            old(lexer).wf(),
        ensures
            final(lexer).wf(),
            final(lexer).same_config(old(lexer)),
            exists|ts: Seq<TokView>|
                #[trigger] driver_outcome(
                    *old(lexer),
                    src@,
                    ts,
                    *final(lexer),
                    old(self).rules_view(),
                    final(self).rules_view(),
                    compile_fuel(src@),
                    compile_fuel(src@),
                    r,
                ),
    {
        let src_len = src.unicode_len();
        let fuel: usize = if src_len < 1000000000 {
            2 * src_len + 16
        } else {
            usize::MAX
        };
        let (r, tr) = self.parse_rules(src, lexer, fuel);
        proof {
            assert(driver_outcome(
                *old(lexer),
                src@,
                tr@,
                *final(lexer),
                old(self).rules_view(),
                self.rules_view(),
                compile_fuel(src@),
                compile_fuel(src@),
                r,
            ));
        }
        r
    }

    /// One rule definition and then the rest: read a name, a definer, a
    /// body, apply first-definition or extension, and continue until the
    /// end-of-input token.
    fn parse_rules(&mut self, src: &str, lexer: &mut LexerState<BnfState>, fuel: usize) -> (r: (
        Result<(), ParseError>,
        Ghost<Seq<TokView>>,
    ))
        requires
            old(lexer).wf(),
        ensures
            final(lexer).wf(),
            final(lexer).same_config(old(lexer)),
            ({
                let ts = r.1@;
                ||| (lex_steps(*old(lexer), src@, ts, *final(lexer)) && rules_rel(
                    ts,
                    old(self).rules_view(),
                    fuel as nat,
                    compile_fuel(src@),
                    (r.0, final(self).rules_view()),
                ))
                ||| (exists|m: LexerState<BnfState>, e: ParseError|
                    r.0 == Err::<(), ParseError>(e) && lex_steps(*old(lexer), src@, ts, m)
                        && #[trigger] step_err(m, src@, e, *final(lexer)))
            }),
        decreases fuel,
    {
        let ghost l0 = *lexer;
        let ghost rs0 = self.rules_view();
        if fuel == 0 {
            return (Err(ParseError::RecursionLimit), Ghost(Seq::<TokView>::empty()));
        }
        let name_tok = match lexer.next(src) {
            Ok(t) => t,
            Err(e) => {
                proof {
                    assert(lex_steps(l0, src@, Seq::<TokView>::empty(), l0));
                    assert(step_err(l0, src@, e, *lexer));
                }
                return (Err(e), Ghost(Seq::<TokView>::empty()));
            },
        };
        let ghost t0 = TokView { ty: name_tok.ty(), text: name_tok.text() };
        let ghost l1 = *lexer;
        proof {
            assert(step_ok(l0, src@, t0, l1));
        }
        if crate::definition::str_eq(name_tok.get_type(), "abnf_token_eof") {
            proof {
                assert(lex_steps(l1, src@, Seq::<TokView>::empty(), l1));
                lemma_lex_steps_cons(l0, src@, t0, l1, Seq::<TokView>::empty(), l1);
                assert(seq![t0] + Seq::<TokView>::empty() =~= seq![t0]);
                assert(seq![t0].drop_first() =~= Seq::<TokView>::empty());
                assert(rules_rel(
                    seq![t0],
                    rs0,
                    fuel as nat,
                    compile_fuel(src@),
                    (Ok::<(), ParseError>(()), rs0),
                ));
            }
            return (Ok(()), Ghost(Seq::<TokView>::empty().push(t0)));
        }
        let def_tok = match lexer.next(src) {
            Ok(t) => t,
            Err(e) => {
                proof {
                    assert(lex_steps(l1, src@, Seq::<TokView>::empty(), l1));
                    lemma_lex_steps_cons(l0, src@, t0, l1, Seq::<TokView>::empty(), l1);
                    assert(seq![t0] + Seq::<TokView>::empty() =~= seq![t0]);
                    assert(step_err(l1, src@, e, *lexer));
                }
                return (Err(e), Ghost(Seq::<TokView>::empty().push(t0)));
            },
        };
        let ghost t1 = TokView { ty: def_tok.ty(), text: def_tok.text() };
        let ghost l2 = *lexer;
        proof {
            assert(step_ok(l1, src@, t1, l2));
        }
        let ghost two = seq![t0, t1];
        proof {
            assert(two[0] == t0);
            assert(two.drop_first() =~= seq![t1]);
            assert(seq![t1].drop_first() =~= Seq::<TokView>::empty());
            assert(lex_steps(l2, src@, Seq::<TokView>::empty(), l2));
            lemma_lex_steps_cons(l1, src@, t1, l2, Seq::<TokView>::empty(), l2);
            assert(seq![t1] + Seq::<TokView>::empty() =~= seq![t1]);
            lemma_lex_steps_cons(l0, src@, t0, l1, seq![t1], l2);
            assert(seq![t0] + seq![t1] =~= two);
        }
        let is_def = crate::definition::str_eq(def_tok.get_value(), "=");
        let is_ext = crate::definition::str_eq(def_tok.get_value(), "=/");
        if !is_def && !is_ext {
            proof {
                assert(rules_rel(
                    two,
                    rs0,
                    fuel as nat,
                    compile_fuel(src@),
                    (Err::<(), ParseError>(ParseError::UnknownTokenKind), rs0),
                ));
            }
            return (Err(ParseError::UnknownTokenKind), Ghost(two));
        }
        let existing = self.find_index(name_tok.get_value());
        if is_def && existing.is_some() {
            proof {
                assert(rules_rel(
                    two,
                    rs0,
                    fuel as nat,
                    compile_fuel(src@),
                    (Err::<(), ParseError>(ParseError::DuplicateRuleDefinition), rs0),
                ));
            }
            return (Err(ParseError::DuplicateRuleDefinition), Ghost(two));
        }
        if is_ext && existing.is_none() {
            proof {
                reveal_strlit("=");
                reveal_strlit("=/");
                assert("="@.len() == 1);
                assert("=/"@.len() == 2);
                assert(rules_rel(
                    two,
                    rs0,
                    fuel as nat,
                    compile_fuel(src@),
                    (Err::<(), ParseError>(ParseError::UndefinedRuleExtension), rs0),
                ));
            }
            return (Err(ParseError::UndefinedRuleExtension), Ghost(two));
        }
        let body_res = BnfDefinition::new(src, lexer);
        let ghost tr_body: Seq<TokView> = choose|tsb: Seq<TokView>|
            #[trigger] compile_outcome(
                l2,
                src@,
                tsb,
                *lexer,
                "abnf_token_end"@,
                Seq::<DefView>::empty(),
                true,
                false,
                compile_fuel(src@),
                body_res,
            );
        let ghost l3 = *lexer;
        proof {
            if body_res is Ok {
                if !(lex_steps(l2, src@, tr_body, l3) && body_rel(
                    tr_body,
                    "abnf_token_end"@,
                    Seq::<DefView>::empty(),
                    true,
                    false,
                    compile_fuel(src@),
                    Ok((*body_res->Ok_0).dview()),
                )) {
                    let (m, e) = choose|m: LexerState<BnfState>, e: ParseError|
                        body_res == Err::<Box<BnfDefinition>, ParseError>(e) && lex_steps(
                            l2,
                            src@,
                            tr_body,
                            m,
                        ) && #[trigger] step_err(m, src@, e, l3);
                    assert(false);
                }
            }
        }
        match body_res {
            Err(e) => {
                let ghost ts_all = two + tr_body;
                proof {
                    reveal_strlit("=");
                    reveal_strlit("=/");
                    assert("="@.len() == 1);
                    assert("=/"@.len() == 2);
                    assert(ts_all.drop_first() =~= seq![t1] + tr_body);
                    assert((seq![t1] + tr_body).drop_first() =~= tr_body);
                    assert(ts_all[0] == t0);
                    assert((seq![t1] + tr_body)[0] == t1);
                    if lex_steps(l2, src@, tr_body, l3) && body_rel(
                        tr_body,
                        "abnf_token_end"@,
                        Seq::<DefView>::empty(),
                        true,
                        false,
                        compile_fuel(src@),
                        Err(e),
                    ) {
                        lemma_lex_steps_cons(l1, src@, t1, l2, tr_body, l3);
                        lemma_lex_steps_cons(l0, src@, t0, l1, seq![t1] + tr_body, l3);
                        assert(seq![t0] + (seq![t1] + tr_body) =~= ts_all);
                        assert(err_witness(e));
                        assert(rules_rel(
                            ts_all,
                            rs0,
                            fuel as nat,
                            compile_fuel(src@),
                            (Err::<(), ParseError>(e), rs0),
                        ));
                    } else {
                        let (m, e2) = choose|m: LexerState<BnfState>, e2: ParseError|
                            body_res == Err::<Box<BnfDefinition>, ParseError>(e2) && lex_steps(
                                l2,
                                src@,
                                tr_body,
                                m,
                            ) && #[trigger] step_err(m, src@, e2, l3);
                        lemma_lex_steps_cons(l1, src@, t1, l2, tr_body, m);
                        lemma_lex_steps_cons(l0, src@, t0, l1, seq![t1] + tr_body, m);
                        assert(seq![t0] + (seq![t1] + tr_body) =~= ts_all);
                        assert(step_err(m, src@, e2, l3));
                    }
                }
                return (Err(e), Ghost(two + tr_body));
            },
            Ok(d) => {
                let ghost dv = (*d).dview();
                if is_def {
                    let _defined = self.define(name_tok.get_value(), d);
                } else {
                    let _extended = self.extend(name_tok.get_value(), d);
                }
                let ghost rs_mid = self.rules_view();
                let (res, tr_rest) = self.parse_rules(src, lexer, fuel - 1);
                let ghost ts_all = two + tr_body + tr_rest@;
                proof {
                    reveal_strlit("=");
                    reveal_strlit("=/");
                    assert("="@.len() == 1);
                    assert("=/"@.len() == 2);
                    let rest2 = seq![t1] + tr_body + tr_rest@;
                    assert(ts_all.drop_first() =~= rest2);
                    assert(rest2.drop_first() =~= tr_body + tr_rest@);
                    assert(ts_all[0] == t0);
                    assert(rest2[0] == t1);
                    let k = tr_body.len() as int;
                    let tail = tr_body + tr_rest@;
                    assert(tail.subrange(0, k) =~= tr_body);
                    assert(tail.subrange(k, tail.len() as int) =~= tr_rest@);
                    if lex_steps(l3, src@, tr_rest@, *lexer) && rules_rel(
                        tr_rest@,
                        rs_mid,
                        (fuel - 1) as nat,
                        compile_fuel(src@),
                        (res, self.rules_view()),
                    ) {
                        lemma_lex_steps_concat(l2, src@, tr_body, l3, tr_rest@, *lexer);
                        lemma_lex_steps_cons(l1, src@, t1, l2, tail, *lexer);
                        lemma_lex_steps_cons(l0, src@, t0, l1, seq![t1] + tail, *lexer);
                        assert(seq![t0] + (seq![t1] + tail) =~= ts_all);
                        assert(seq![t1] + tail =~= rest2);
                        assert(split_witness(k, dv));
                        assert(rules_rel(
                            ts_all,
                            rs0,
                            fuel as nat,
                            compile_fuel(src@),
                            (res, self.rules_view()),
                        ));
                    } else {
                        let (m, e) = choose|m: LexerState<BnfState>, e: ParseError|
                            res == Err::<(), ParseError>(e) && lex_steps(l3, src@, tr_rest@, m)
                                && #[trigger] step_err(m, src@, e, *lexer);
                        lemma_lex_steps_concat(l2, src@, tr_body, l3, tr_rest@, m);
                        lemma_lex_steps_cons(l1, src@, t1, l2, tail, m);
                        lemma_lex_steps_cons(l0, src@, t0, l1, seq![t1] + tail, m);
                        assert(seq![t0] + (seq![t1] + tail) =~= ts_all);
                        assert(step_err(m, src@, e, *lexer));
                    }
                }
                return (res, Ghost(two + tr_body + tr_rest@));
            },
        }
    }
}

} // verus!
