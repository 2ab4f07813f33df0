//! The grammar interpreter: walk a compiled definition against a token
//! source, pulling one token at a time — the source has no rewind, so an
//! alternative that consumes tokens and then fails cannot be undone — and
//! assemble a labeled parse tree. `Range` and `Repeat` nodes are left
//! unevaluated: reaching one is an unconditional failure.

use vstd::prelude::*;
use crate::definition::{str_eq, BnfDefinition, DefView};
use crate::errors::ParseError;
use crate::grammar::{GrammarTreeNode, TreeV};
use crate::rule::{AbnfRule, RuleV};
use crate::rules::{driver_outcome, find_rv, fresh_abnf_cursor, AbnfRules};
use crate::abnf_lexer::BnfState;
use crate::lexer_state::{LexerState, TokView};
use crate::token::Token;

verus! {

/// The depth guard on rule expansion during interpretation: grammars that
/// reference rules more deeply nested than this fail instead of recursing
/// without bound.
pub const PARSE_DEPTH: usize = 256;

/// A node relabeled at a rule boundary.
pub open spec fn with_rule(t: TreeV, name: Seq<char>) -> TreeV {
    TreeV { rule: name, value: t.value, children: t.children }
}

/// An unlabeled node with the given children.
pub open spec fn plain_node(children: Seq<TreeV>) -> TreeV {
    TreeV { rule: Seq::<char>::empty(), value: Seq::<char>::empty(), children }
}

/// What evaluating one definition against the token texts `toks` from
/// position `pos` yields, and where the cursor then stands — also after a
/// failure, since consumed tokens are never returned to the source.
pub open spec fn eval_def(
    rs: Seq<RuleV>,
    d: DefView,
    toks: Seq<Seq<char>>,
    pos: int,
    fuel: nat,
) -> (Result<TreeV, ParseError>, int)
    decreases fuel, d,
{
    match d {
        DefView::Series(cs) => {
            let r = eval_seq(rs, cs, toks, pos, fuel);
            (
                match r.0 {
                    Ok(children) => Ok(plain_node(children)),
                    Err(e) => Err(e),
                },
                r.1,
            )
        },
        DefView::Select(cs) => {
            let r = eval_alts(rs, cs, toks, pos, fuel);
            (
                match r.0 {
                    Ok(chosen) => Ok(plain_node(seq![chosen])),
                    Err(e) => Err(e),
                },
                r.1,
            )
        },
        DefView::Terminal(lit) => {
            if pos < 0 || pos >= toks.len() {
                (Err(ParseError::PrematureEnd), pos)
            } else if toks[pos] == lit {
                (
                    Ok(
                        TreeV {
                            rule: Seq::<char>::empty(),
                            value: lit,
                            children: Seq::<TreeV>::empty(),
                        },
                    ),
                    pos + 1,
                )
            } else {
                (Err(ParseError::TerminalMismatch), pos + 1)
            }
        },
        DefView::Rule(name) => {
            match find_rv(rs, name, 0) {
                None => (Err(ParseError::UnknownRuleReference), pos),
                Some(i) => {
                    if fuel == 0 {
                        (Err(ParseError::RecursionLimit), pos)
                    } else {
                        let r = eval_def(rs, rs[i].def, toks, pos, (fuel - 1) as nat);
                        (
                            match r.0 {
                                Ok(child) => Ok(plain_node(seq![with_rule(child, rs[i].name)])),
                                Err(e) => Err(e),
                            },
                            r.1,
                        )
                    }
                },
            }
        },
        DefView::Group(inner) => eval_def(rs, *inner, toks, pos, fuel),
        DefView::Options(inner) => {
            let r = eval_def(rs, *inner, toks, pos, fuel);
            (
                match r.0 {
                    Ok(child) => Ok(plain_node(seq![child])),
                    Err(_) => Ok(plain_node(Seq::<TreeV>::empty())),
                },
                r.1,
            )
        },
        DefView::Range(_, _) => (Err(ParseError::UnsupportedDefinition), pos),
        DefView::Repeat(_, _, _) => (Err(ParseError::UnsupportedDefinition), pos),
    }
}

/// Evaluating a series: each child in order against the same source; the
/// first failure aborts the whole series with the tokens consumed so far.
pub open spec fn eval_seq(
    rs: Seq<RuleV>,
    cs: Seq<DefView>,
    toks: Seq<Seq<char>>,
    pos: int,
    fuel: nat,
) -> (Result<Seq<TreeV>, ParseError>, int)
    decreases fuel, cs,
{
    if cs.len() == 0 {
        (Ok(Seq::<TreeV>::empty()), pos)
    } else {
        let r0 = eval_def(rs, cs[0], toks, pos, fuel);
        match r0.0 {
            Err(e) => (Err(e), r0.1),
            Ok(t) => {
                let r1 = eval_seq(rs, cs.drop_first(), toks, r0.1, fuel);
                (
                    match r1.0 {
                        Ok(others) => Ok(seq![t] + others),
                        Err(e) => Err(e),
                    },
                    r1.1,
                )
            },
        }
    }
}

/// Evaluating alternatives: in listed order, the first success wins; a
/// failed branch's consumed tokens stay consumed, and when every branch
/// fails the last branch's failure is the result.
pub open spec fn eval_alts(
    rs: Seq<RuleV>,
    cs: Seq<DefView>,
    toks: Seq<Seq<char>>,
    pos: int,
    fuel: nat,
) -> (Result<TreeV, ParseError>, int)
    decreases fuel, cs,
{
    if cs.len() == 0 {
        (Err(ParseError::EmptyOrMalformedAlternation), pos)
    } else {
        let r0 = eval_def(rs, cs[0], toks, pos, fuel);
        match r0.0 {
            Ok(t) => (Ok(t), r0.1),
            Err(e) => {
                if cs.len() == 1 {
                    (Err(e), r0.1)
                } else {
                    eval_alts(rs, cs.drop_first(), toks, r0.1, fuel)
                }
            },
        }
    }
}

/// A series result with already-built children in front.
pub open spec fn seq_prepend(acc: Seq<TreeV>, r: (Result<Seq<TreeV>, ParseError>, int)) -> (
    Result<Seq<TreeV>, ParseError>,
    int,
) {
    match r.0 {
        Ok(o) => (Ok(acc + o), r.1),
        Err(e) => (Err(e), r.1),
    }
}

/// Prepending nothing changes nothing.
pub proof fn lemma_prepend_empty(r: (Result<Seq<TreeV>, ParseError>, int))
    ensures
        seq_prepend(Seq::<TreeV>::empty(), r) == r,
{
    match r.0 {
        Ok(o) => {
            assert(Seq::<TreeV>::empty() + o =~= o);
        },
        Err(_) => {},
    }
}

/// Moving one built child from the pending side to the accumulator.
pub proof fn lemma_prepend_shift(acc: Seq<TreeV>, t: TreeV, r: (Result<Seq<TreeV>, ParseError>, int))
    ensures
        seq_prepend(acc, (match r.0 {
            Ok(o) => (Ok::<Seq<TreeV>, ParseError>(seq![t] + o), r.1),
            Err(e) => (Err::<Seq<TreeV>, ParseError>(e), r.1),
        })) == seq_prepend(acc.push(t), r),
{
    match r.0 {
        Ok(o) => {
            assert(acc + (seq![t] + o) =~= acc.push(t) + o);
        },
        Err(_) => {},
    }
}

/// A fully consumed series yields exactly the accumulator.
pub proof fn lemma_prepend_done(acc: Seq<TreeV>, p: int)
    ensures
        seq_prepend(acc, (Ok::<Seq<TreeV>, ParseError>(Seq::<TreeV>::empty()), p)) == (
            Ok::<Seq<TreeV>, ParseError>(acc),
            p,
        ),
{
    assert(acc + Seq::<TreeV>::empty() =~= acc);
}

/// A token source: yields the next token on demand, with no rewind. The
/// tokens are held as a materialized sequence; a caller with a lazy or
/// interactive supply of tokens collects it into one before interpreting.
pub struct TokenSource {
    tokens: Vec<Token>,
    cursor: usize,
}

impl TokenSource {
    /// The texts of all tokens this source yields, in order.
    pub closed spec fn texts(&self) -> Seq<Seq<char>> {
        self.tokens@.map_values(|t: Token| t.text())
    }

    /// How many tokens were already consumed.
    pub closed spec fn cursor_spec(&self) -> usize {
        self.cursor
    }

    /// The cursor never passes the end.
    pub open spec fn wf(&self) -> bool {
        self.cursor_spec() <= self.texts().len()
    }

    pub fn new(tokens: Vec<Token>) -> (r: TokenSource)
        ensures
            r.wf(),
            r.cursor_spec() == 0,
            r.texts() == tokens@.map_values(|t: Token| t.text()),
    {
        TokenSource { tokens, cursor: 0 }
    }

    /// Yield the next token, or report that the input is exhausted.
    pub fn next_token(&mut self) -> (r: Result<Token, ParseError>)
        requires
            old(self).wf(),
        ensures
            final(self).wf(),
            final(self).texts() == old(self).texts(),
            old(self).cursor_spec() < old(self).texts().len() ==> (r matches Ok(t)
                && t.text() == old(self).texts()[old(self).cursor_spec() as int]
                && final(self).cursor_spec() == old(self).cursor_spec() + 1),
            old(self).cursor_spec() >= old(self).texts().len() ==> r == Err::<Token, ParseError>(
                ParseError::PrematureEnd,
            ) && final(self).cursor_spec() == old(self).cursor_spec(),
    {
        if self.cursor < self.tokens.len() {
            let t = self.tokens[self.cursor].duplicate();
            self.cursor = self.cursor + 1;
            Ok(t)
        } else {
            Err(ParseError::PrematureEnd)
        }
    }
}

/// The grammar interpreter: a rule table plus a tree-walking `parse`.
pub struct GrammarParser {
    abnf_rules: AbnfRules,
}

impl GrammarParser {
    /// The mathematical shape of the held rule table.
    pub closed spec fn rules_view(&self) -> Seq<RuleV> {
        self.abnf_rules.rules_view()
    }

    pub fn new() -> (r: GrammarParser)
        ensures
            r.rules_view() == Seq::<RuleV>::empty(),
    {
        GrammarParser { abnf_rules: AbnfRules::new() }
    }

    /// Read rule definitions from ABNF source text into the held table.
    pub fn add_rules(&mut self, rules_src: &str) -> (r: Result<(), ParseError>)
        ensures
            exists|l0: LexerState<BnfState>, l1: LexerState<BnfState>, ts: Seq<TokView>|
                fresh_abnf_cursor(l0) && #[trigger] driver_outcome(
                    l0,
                    rules_src@,
                    ts,
                    l1,
                    old(self).rules_view(),
                    final(self).rules_view(),
                    crate::definition::compile_fuel(rules_src@),
                    crate::definition::compile_fuel(rules_src@),
                    r,
                ),
    {
        let r = self.abnf_rules.parse(rules_src);
        proof {
            let (l0, l1, ts) = choose|l0: LexerState<BnfState>, l1: LexerState<BnfState>, ts: Seq<TokView>|
                fresh_abnf_cursor(l0) && #[trigger] driver_outcome(
                    l0,
                    rules_src@,
                    ts,
                    l1,
                    old(self).abnf_rules.rules_view(),
                    self.abnf_rules.rules_view(),
                    crate::definition::compile_fuel(rules_src@),
                    crate::definition::compile_fuel(rules_src@),
                    r,
                );
            assert(driver_outcome(
                l0,
                rules_src@,
                ts,
                l1,
                old(self).rules_view(),
                self.rules_view(),
                crate::definition::compile_fuel(rules_src@),
                crate::definition::compile_fuel(rules_src@),
                r,
            ));
        }
        r
    }

    /// Look up a rule by name; an absent name is an unknown-rule failure.
    pub fn get_rule(&self, rule_key: &str) -> (r: Result<&AbnfRule, ParseError>)
        ensures
            (match find_rv(self.rules_view(), rule_key@, 0) {
                Some(i) => r matches Ok(ru) && ru.rv() == self.rules_view()[i],
                None => r == Err::<&AbnfRule, ParseError>(ParseError::UnknownRuleReference),
            }),
    {
        match self.abnf_rules.get(rule_key) {
            Some(ru) => Ok(ru),
            None => Err(ParseError::UnknownRuleReference),
        }
    }

    /// Interpret the named rule against a token source: the resulting tree
    /// is the rule's evaluation with the rule's name on the root.
    pub fn parse(&self, rule_key: &str, token_parser: &mut TokenSource) -> (r: Result<
        Box<GrammarTreeNode>,
        ParseError,
    >)
        requires
            old(token_parser).wf(),
        ensures
            final(token_parser).wf(),
            final(token_parser).texts() == old(token_parser).texts(),
            (match find_rv(self.rules_view(), rule_key@, 0) {
                None => r == Err::<Box<GrammarTreeNode>, ParseError>(
                    ParseError::UnknownRuleReference,
                ) && final(token_parser).cursor_spec() == old(token_parser).cursor_spec(),
                Some(i) => {
                    let ev = eval_def(
                        self.rules_view(),
                        self.rules_view()[i].def,
                        old(token_parser).texts(),
                        old(token_parser).cursor_spec() as int,
                        PARSE_DEPTH as nat,
                    );
                    &&& final(token_parser).cursor_spec() as int == ev.1
                    &&& (match (r, ev.0) {
                        (Ok(n), Ok(t)) => (*n).tview() == with_rule(t, self.rules_view()[i].name),
                        (Err(e1), Err(e2)) => e1 == e2,
                        _ => false,
                    })
                },
            }),
    {
        let enter_rule = match self.get_rule(rule_key) {
            Err(e) => {
                return Err(e);
            },
            Ok(ru) => ru,
        };
        match self.parse_def(enter_rule.get_definition(), token_parser, PARSE_DEPTH) {
            Err(e) => Err(e),
            Ok(mut node) => {
                node.set_rule(true, enter_rule.get_name().to_owned());
                Ok(node)
            },
        }
    }

    /// Evaluate one definition node against the source.
    #[verifier::loop_isolation(false)]
    fn parse_def(
        &self,
        definition: &BnfDefinition,
        token_parser: &mut TokenSource,
        fuel: usize,
    ) -> (r: Result<Box<GrammarTreeNode>, ParseError>)
        requires
            old(token_parser).wf(),
        ensures
            final(token_parser).wf(),
            final(token_parser).texts() == old(token_parser).texts(),
            ({
                let ev = eval_def(
                    self.rules_view(),
                    definition.dview(),
                    old(token_parser).texts(),
                    old(token_parser).cursor_spec() as int,
                    fuel as nat,
                );
                &&& final(token_parser).cursor_spec() as int == ev.1
                &&& (match (r, ev.0) {
                    (Ok(n), Ok(t)) => (*n).tview() == t,
                    (Err(e1), Err(e2)) => e1 == e2,
                    _ => false,
                })
            }),
        decreases fuel, definition,
    {
        let ghost rs = self.rules_view();
        let ghost toks = old(token_parser).texts();
        let ghost pos0 = old(token_parser).cursor_spec() as int;
        match definition {
            BnfDefinition::Series(children) => {
                proof {
                    crate::definition::lemma_dview_seq_len(children@);
                }
                let ghost cs = crate::definition::dview_seq(children@);
                proof {
                    assert(definition.dview() == DefView::Series(cs));
                }
                let mut node = GrammarTreeNode::new();
                let n = children.len();
                let mut j: usize = 0;
                proof {
                    assert(cs.subrange(0, n as int) =~= cs);
                    lemma_prepend_empty(eval_seq(rs, cs, toks, pos0, fuel as nat));
                    assert(tview_seq_of(node) =~= Seq::<TreeV>::empty());
                }
                loop
                    invariant
                        old(token_parser).wf(),
                        token_parser.wf(),
                        token_parser.texts() == toks,
                        rs == self.rules_view(),
                        0 <= j <= n,
                        n == children@.len(),
                        cs == crate::definition::dview_seq(children@),
                        cs.len() == n,
                        forall|q: int| 0 <= q < n ==> cs[q] == (*children@[q]).dview(),
                        node.rule_spec() == Seq::<char>::empty(),
                        node.value_spec() == Seq::<char>::empty(),
                        eval_seq(rs, cs, toks, pos0, fuel as nat) == seq_prepend(
                            tview_seq_of(node),
                            eval_seq(
                                rs,
                                cs.subrange(j as int, n as int),
                                toks,
                                token_parser.cursor_spec() as int,
                                fuel as nat,
                            ),
                        ),
                    decreases n - j,
                {
                    if j >= n {
                        break ;
                    }
                    proof {
                        assert(cs.subrange(j as int, n as int)[0] == cs[j as int]);
                        assert(cs.subrange(j as int, n as int).drop_first() =~= cs.subrange(
                            j as int + 1,
                            n as int,
                        ));
                        assert((*definition)->Series_0 == *children);
                        assert(decreases_to!(*definition => (*definition)->Series_0));
                        assert(decreases_to!(*children => children@));
                        assert(decreases_to!(children@ => children@[j as int]));
                    }
                    let ghost pos_j = token_parser.cursor_spec() as int;
                    let child = match self.parse_def(&children[j], token_parser, fuel) {
                        Ok(c) => c,
                        Err(e) => {
                            proof {
                                let sub = cs.subrange(j as int, n as int);
                                assert(eval_seq(rs, sub, toks, pos_j, fuel as nat) == (
                                    Err::<Seq<TreeV>, ParseError>(e),
                                    token_parser.cursor_spec() as int,
                                ));
                            }
                            return Err(e);
                        },
                    };
                    proof {
                        lemma_prepend_shift(
                            tview_seq_of(node),
                            (*child).tview(),
                            eval_seq(
                                rs,
                                cs.subrange(j as int + 1, n as int),
                                toks,
                                token_parser.cursor_spec() as int,
                                fuel as nat,
                            ),
                        );
                    }
                    node.append_child(child);
                    j = j + 1;
                }
                proof {
                    assert(cs.subrange(n as int, n as int) =~= Seq::<DefView>::empty());
                    lemma_prepend_done(tview_seq_of(node), token_parser.cursor_spec() as int);
                }
                Ok(Box::new(node))
            },
            BnfDefinition::Select(children) => {
                proof {
                    crate::definition::lemma_dview_seq_len(children@);
                }
                let ghost cs = crate::definition::dview_seq(children@);
                proof {
                    assert(definition.dview() == DefView::Select(cs));
                }
                let n = children.len();
                if n == 0 {
                    proof {
                        assert(cs.len() == 0);
                        assert(eval_alts(rs, cs, toks, pos0, fuel as nat) == (
                            Err::<TreeV, ParseError>(ParseError::EmptyOrMalformedAlternation),
                            pos0,
                        ));
                    }
                    return Err(ParseError::EmptyOrMalformedAlternation);
                }
                let mut j: usize = 0;
                proof {
                    assert(cs.subrange(0, n as int) =~= cs);
                }
                loop
                    invariant
                        old(token_parser).wf(),
                        token_parser.wf(),
                        token_parser.texts() == toks,
                        rs == self.rules_view(),
                        0 <= j < n,
                        n == children@.len(),
                        cs == crate::definition::dview_seq(children@),
                        cs.len() == n,
                        forall|q: int| 0 <= q < n ==> cs[q] == (*children@[q]).dview(),
                        eval_alts(rs, cs, toks, pos0, fuel as nat) == eval_alts(
                            rs,
                            cs.subrange(j as int, n as int),
                            toks,
                            token_parser.cursor_spec() as int,
                            fuel as nat,
                        ),
                    decreases n - j,
                {
                    proof {
                        assert(cs.subrange(j as int, n as int)[0] == cs[j as int]);
                        assert(cs.subrange(j as int, n as int).drop_first() =~= cs.subrange(
                            j as int + 1,
                            n as int,
                        ));
                        assert((*definition)->Select_0 == *children);
                        assert(decreases_to!(*definition => (*definition)->Select_0));
                        assert(decreases_to!(*children => children@));
                        assert(decreases_to!(children@ => children@[j as int]));
                    }
                    let ghost pos_j = token_parser.cursor_spec() as int;
                    match self.parse_def(&children[j], token_parser, fuel) {
                        Ok(chosen) => {
                            proof {
                                let sub = cs.subrange(j as int, n as int);
                                assert(eval_alts(rs, sub, toks, pos_j, fuel as nat) == (
                                    Ok::<TreeV, ParseError>((*chosen).tview()),
                                    token_parser.cursor_spec() as int,
                                ));
                            }
                            let mut node = GrammarTreeNode::new();
                            node.append_child(chosen);
                            return Ok(Box::new(node));
                        },
                        Err(e) => {
                            proof {
                                let sub = cs.subrange(j as int, n as int);
                                if j + 1 == n {
                                    assert(sub.len() == 1);
                                    assert(eval_alts(rs, sub, toks, pos_j, fuel as nat) == (
                                        Err::<TreeV, ParseError>(e),
                                        token_parser.cursor_spec() as int,
                                    ));
                                }
                            }
                            if j + 1 == n {
                                return Err(e);
                            }
                        },
                    }
                    j = j + 1;
                }
            },
            BnfDefinition::Terminal(value) => {
                match token_parser.next_token() {
                    Err(e) => Err(e),
                    Ok(tok) => {
                        if str_eq(value.as_str(), tok.get_value()) {
                            let mut node = GrammarTreeNode::new();
                            node.set_value(tok.get_value().to_owned());
                            Ok(Box::new(node))
                        } else {
                            Err(ParseError::TerminalMismatch)
                        }
                    },
                }
            },
            BnfDefinition::Rule(rule_node) => {
                match self.abnf_rules.get(rule_node.as_str()) {
                    None => Err(ParseError::UnknownRuleReference),
                    Some(enter_rule) => {
                        if fuel == 0 {
                            return Err(ParseError::RecursionLimit);
                        }
                        match self.parse_def(enter_rule.get_definition(), token_parser, fuel - 1) {
                            Err(e) => Err(e),
                            Ok(mut child) => {
                                child.set_rule(true, enter_rule.get_name().to_owned());
                                let mut node = GrammarTreeNode::new();
                                node.append_child(child);
                                Ok(Box::new(node))
                            },
                        }
                    },
                }
            },
            BnfDefinition::Group(inner) => self.parse_def(inner, token_parser, fuel),
            BnfDefinition::Options(inner) => {
                match self.parse_def(inner, token_parser, fuel) {
                    Ok(child) => {
                        let mut node = GrammarTreeNode::new();
                        node.append_child(child);
                        Ok(Box::new(node))
                    },
                    Err(_) => Ok(Box::new(GrammarTreeNode::new())),
                }
            },
            BnfDefinition::Range(_) => Err(ParseError::UnsupportedDefinition),
            BnfDefinition::Repeat(_) => Err(ParseError::UnsupportedDefinition),
        }
    }
}

/// The shapes of a node's children.
pub open spec fn tview_seq_of(node: GrammarTreeNode) -> Seq<TreeV> {
    crate::grammar::tview_seq(node.children_seq())
}

} // verus!
