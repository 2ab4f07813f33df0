//! The tokenizer engine configured for the ABNF-like notation itself: its
//! token kinds, its lexical states and the ordered pattern lists of each.
//! This is configuration data attached to the generic engine, not engine
//! logic.

use vstd::prelude::*;
use crate::lexer_state::{LexerState, LexRule, LexState};
use crate::pattern::regex_valid;
use crate::state_change::NextStateChange;
use crate::token_factory::TokenFactory;

verus! {

/// The custom state value threaded through the ABNF tokenizer; it carries
/// nothing.
pub struct BnfState {}

impl BnfState {
    pub fn new() -> BnfState {
        BnfState {  }
    }
}

pub fn token_name_type() -> (r: &'static str)
    ensures
        r@ == "abnf_token_name"@,
{
    "abnf_token_name"
}

pub fn token_definer_type() -> (r: &'static str)
    ensures
        r@ == "abnf_token_definer"@,
{
    "abnf_token_definer"
}

pub fn token_terminal_type() -> (r: &'static str)
    ensures
        r@ == "abnf_token_terminal"@,
{
    "abnf_token_terminal"
}

pub fn token_range_type() -> (r: &'static str)
    ensures
        r@ == "abnf_token_range"@,
{
    "abnf_token_range"
}

pub fn token_left_parenthesis_type() -> (r: &'static str)
    ensures
        r@ == "abnf_token_left_parenthesis"@,
{
    "abnf_token_left_parenthesis"
}

pub fn token_right_parenthesis_type() -> (r: &'static str)
    ensures
        r@ == "abnf_token_right_parenthesis"@,
{
    "abnf_token_right_parenthesis"
}

pub fn token_variable_type() -> (r: &'static str)
    ensures
        r@ == "abnf_token_variable"@,
{
    "abnf_token_variable"
}

pub fn token_left_options_type() -> (r: &'static str)
    ensures
        r@ == "abnf_token_left_options"@,
{
    "abnf_token_left_options"
}

pub fn token_right_options_type() -> (r: &'static str)
    ensures
        r@ == "abnf_token_right_options"@,
{
    "abnf_token_right_options"
}

pub fn token_select_type() -> (r: &'static str)
    ensures
        r@ == "abnf_token_select"@,
{
    "abnf_token_select"
}

pub fn token_end_type() -> (r: &'static str)
    ensures
        r@ == "abnf_token_end"@,
{
    "abnf_token_end"
}

pub fn token_requirement_type() -> (r: &'static str)
    ensures
        r@ == "abnf_requirement"@,
{
    "abnf_requirement"
}

pub fn abnf_token_eof() -> (r: &'static str)
    ensures
        r@ == "abnf_token_eof"@,
{
    "abnf_token_eof"
}

pub fn abnf_state_init() -> (r: &'static str)
    ensures
        r@ == "abnf_state_init"@,
{
    "abnf_state_init"
}

pub fn abnf_state_definer() -> (r: &'static str)
    ensures
        r@ == "abnf_state_definer"@,
{
    "abnf_state_definer"
}

pub fn abnf_state_require_elements() -> (r: &'static str)
    ensures
        r@ == "abnf_state_require_elements"@,
{
    "abnf_state_require_elements"
}

pub fn abnf_state_elements() -> (r: &'static str)
    ensures
        r@ == "abnf_state_elements"@,
{
    "abnf_state_elements"
}

pub fn abnf_state_parenthesis_require_elements() -> (r: &'static str)
    ensures
        r@ == "abnf_state_parenthesis_require_elements"@,
{
    "abnf_state_parenthesis_require_elements"
}

pub fn abnf_state_parenthesis_elements() -> (r: &'static str)
    ensures
        r@ == "abnf_state_parenthesis_elements"@,
{
    "abnf_state_parenthesis_elements"
}

pub fn abnf_state_variable_require_element() -> (r: &'static str)
    ensures
        r@ == "abnf_state_variable_require_element"@,
{
    "abnf_state_variable_require_element"
}

pub fn abnf_state_options_require_elements() -> (r: &'static str)
    ensures
        r@ == "abnf_state_options_require_elements"@,
{
    "abnf_state_options_require_elements"
}

pub fn abnf_state_options_elements() -> (r: &'static str)
    ensures
        r@ == "abnf_state_options_elements"@,
{
    "abnf_state_options_elements"
}

/// Whether one stack operation pushes the named lexical state.
pub open spec fn op_pushes(op: NextStateChange, name: Seq<char>) -> bool {
    op matches NextStateChange::Push(s) && s@ == name
}

/// A factory for tokens of `kind` with the default advances.
pub open spec fn factory_plain(f: TokenFactory, kind: Seq<char>) -> bool {
    &&& f.ty_spec() == kind
    &&& f.off_spec() is None
    &&& f.lines_spec() is None
}

/// A rule with the given pattern and kind and no stack operation.
pub open spec fn rule_plain(r: LexRule, pat: Seq<char>, kind: Seq<char>) -> bool {
    &&& r.pattern_spec() == pat
    &&& factory_plain(r.factory_spec(), kind)
    &&& r.factory_spec().ops_spec().len() == 0
}

/// A rule that pops one remembered state.
pub open spec fn rule_pop1(r: LexRule, pat: Seq<char>, kind: Seq<char>) -> bool {
    &&& r.pattern_spec() == pat
    &&& factory_plain(r.factory_spec(), kind)
    &&& r.factory_spec().ops_spec().len() == 1
    &&& r.factory_spec().ops_spec()[0] == NextStateChange::Pop(1usize)
}

/// A rule that pushes one state.
pub open spec fn rule_push1(r: LexRule, pat: Seq<char>, kind: Seq<char>, s1: Seq<char>) -> bool {
    &&& r.pattern_spec() == pat
    &&& factory_plain(r.factory_spec(), kind)
    &&& r.factory_spec().ops_spec().len() == 1
    &&& op_pushes(r.factory_spec().ops_spec()[0], s1)
}

/// A rule that pops one remembered state and then pushes one.
pub open spec fn rule_pop1_push1(
    r: LexRule,
    pat: Seq<char>,
    kind: Seq<char>,
    s1: Seq<char>,
) -> bool {
    &&& r.pattern_spec() == pat
    &&& factory_plain(r.factory_spec(), kind)
    &&& r.factory_spec().ops_spec().len() == 2
    &&& r.factory_spec().ops_spec()[0] == NextStateChange::Pop(1usize)
    &&& op_pushes(r.factory_spec().ops_spec()[1], s1)
}

/// A rule that pushes two states in order.
pub open spec fn rule_push2(
    r: LexRule,
    pat: Seq<char>,
    kind: Seq<char>,
    s1: Seq<char>,
    s2: Seq<char>,
) -> bool {
    &&& r.pattern_spec() == pat
    &&& factory_plain(r.factory_spec(), kind)
    &&& r.factory_spec().ops_spec().len() == 2
    &&& op_pushes(r.factory_spec().ops_spec()[0], s1)
    &&& op_pushes(r.factory_spec().ops_spec()[1], s2)
}

/// A rule that pops one remembered state and then pushes two in order.
pub open spec fn rule_pop1_push2(
    r: LexRule,
    pat: Seq<char>,
    kind: Seq<char>,
    s1: Seq<char>,
    s2: Seq<char>,
) -> bool {
    &&& r.pattern_spec() == pat
    &&& factory_plain(r.factory_spec(), kind)
    &&& r.factory_spec().ops_spec().len() == 3
    &&& r.factory_spec().ops_spec()[0] == NextStateChange::Pop(1usize)
    &&& op_pushes(r.factory_spec().ops_spec()[1], s1)
    &&& op_pushes(r.factory_spec().ops_spec()[2], s2)
}

/// An element rule, popping one remembered state when `pops` holds.
pub open spec fn rule_element(r: LexRule, pat: Seq<char>, kind: Seq<char>, pops: bool) -> bool {
    if pops {
        rule_pop1(r, pat, kind)
    } else {
        rule_plain(r, pat, kind)
    }
}
/// The seven element rules shared by every element-reading state, in
/// registration order: names, the four terminal forms, ranges and
/// requirements.
pub open spec fn common_element_rules(rs: Seq<LexRule>, pops: bool) -> bool {
    &&& rs.len() >= 7
    &&& rule_element(rs[0], "^[a-zA-Z][a-zA-Z0-9\\-]*"@, "abnf_token_name"@, pops)
    &&& rule_element(rs[1], "^%b(0|1)+(\\.(0|1)+)*"@, "abnf_token_terminal"@, pops)
    &&& rule_element(rs[2], "^%d\\d+(\\.\\d+)*"@, "abnf_token_terminal"@, pops)
    &&& rule_element(rs[3], "^%h[a-fA-F0-9]+(\\.[a-fA-F0-9]+)*"@, "abnf_token_terminal"@, pops)
    &&& rule_element(rs[4], "^\"(?:\\\\\"|[^\"])*?\""@, "abnf_token_terminal"@, pops)
    &&& rule_element(rs[5], "^%(b(0|1)+-(0|1)+|d\\d+-\\d+|x[a-fA-F0-9]+-[a-fA-F0-9]+)"@, "abnf_token_range"@, pops)
    &&& rule_element(rs[6], "^<.*?>"@, "abnf_requirement"@, pops)
}

/// Whether the regex engine accepts every pattern of the ABNF table.
/// Nothing here presumes that it does; under it the table below is
/// pinned exactly.
pub open spec fn abnf_patterns_valid() -> bool {
    &&& regex_valid("^[a-zA-Z][a-zA-Z0-9\\-]*"@)
    &&& regex_valid("^%b(0|1)+(\\.(0|1)+)*"@)
    &&& regex_valid("^%d\\d+(\\.\\d+)*"@)
    &&& regex_valid("^%h[a-fA-F0-9]+(\\.[a-fA-F0-9]+)*"@)
    &&& regex_valid("^\"(?:\\\\\"|[^\"])*?\""@)
    &&& regex_valid("^%(b(0|1)+-(0|1)+|d\\d+-\\d+|x[a-fA-F0-9]+-[a-fA-F0-9]+)"@)
    &&& regex_valid("^<.*?>"@)
    &&& regex_valid("^=/?"@)
    &&& regex_valid("^;"@)
    &&& regex_valid("^/"@)
    &&& regex_valid("^(\\d*\\*\\d*|\\d+)"@)
    &&& regex_valid("^\\("@)
    &&& regex_valid("^\\)"@)
    &&& regex_valid("^\\["@)
    &&& regex_valid("^\\]"@)
}

/// The single rule of the initial state.
pub open spec fn init_rules(rs: Seq<LexRule>) -> bool {
    &&& rs.len() == 1
    &&& rule_push1(rs[0], "^[a-zA-Z][a-zA-Z0-9\\-]*"@, "abnf_token_name"@, "abnf_state_definer"@)
}

/// The single rule of the definer state.
pub open spec fn definer_rules(rs: Seq<LexRule>) -> bool {
    &&& rs.len() == 1
    &&& rule_pop1_push2(rs[0], "^=/?"@, "abnf_token_definer"@, "abnf_state_elements"@, "abnf_state_require_elements"@)
}

/// The rules of a state that requires one element and pops back: the
/// common elements plus repetition counts, groups and optional groups.
pub open spec fn require_style_rules(rs: Seq<LexRule>) -> bool {
    &&& rs.len() == 10
    &&& common_element_rules(rs, true)
    &&& rule_pop1_push1(rs[7], "^(\\d*\\*\\d*|\\d+)"@, "abnf_token_variable"@, "abnf_state_variable_require_element"@)
    &&& rule_pop1_push2(rs[8], "^\\("@, "abnf_token_left_parenthesis"@, "abnf_state_parenthesis_elements"@, "abnf_state_parenthesis_require_elements"@)
    &&& rule_pop1_push2(rs[9], "^\\["@, "abnf_token_left_options"@, "abnf_state_options_elements"@, "abnf_state_options_require_elements"@)
}

/// The rules of the top-level element-list state.
pub open spec fn elements_rules(rs: Seq<LexRule>) -> bool {
    &&& rs.len() == 12
    &&& common_element_rules(rs, false)
    &&& rule_pop1(rs[7], "^;"@, "abnf_token_end"@)
    &&& rule_push1(rs[8], "^/"@, "abnf_token_select"@, "abnf_state_require_elements"@)
    &&& rule_push1(rs[9], "^(\\d*\\*\\d*|\\d+)"@, "abnf_token_variable"@, "abnf_state_variable_require_element"@)
    &&& rule_push2(rs[10], "^\\("@, "abnf_token_left_parenthesis"@, "abnf_state_parenthesis_elements"@, "abnf_state_parenthesis_require_elements"@)
    &&& rule_push2(rs[11], "^\\["@, "abnf_token_left_options"@, "abnf_state_options_elements"@, "abnf_state_options_require_elements"@)
}

/// The rules of the element-list state inside parentheses.
pub open spec fn parenthesis_elements_rules(rs: Seq<LexRule>) -> bool {
    &&& rs.len() == 12
    &&& common_element_rules(rs, false)
    &&& rule_pop1(rs[7], "^\\)"@, "abnf_token_right_parenthesis"@)
    &&& rule_push1(rs[8], "^(\\d*\\*\\d*|\\d+)"@, "abnf_token_variable"@, "abnf_state_variable_require_element"@)
    &&& rule_push1(rs[9], "^/"@, "abnf_token_select"@, "abnf_state_parenthesis_require_elements"@)
    &&& rule_push2(rs[10], "^\\("@, "abnf_token_left_parenthesis"@, "abnf_state_parenthesis_elements"@, "abnf_state_parenthesis_require_elements"@)
    &&& rule_push2(rs[11], "^\\["@, "abnf_token_left_options"@, "abnf_state_options_elements"@, "abnf_state_options_require_elements"@)
}

/// The rules of the element-list state inside an optional group.
pub open spec fn options_elements_rules(rs: Seq<LexRule>) -> bool {
    &&& rs.len() == 12
    &&& common_element_rules(rs, false)
    &&& rule_pop1(rs[7], "^\\]"@, "abnf_token_right_options"@)
    &&& rule_push1(rs[8], "^/"@, "abnf_token_select"@, "abnf_state_options_require_elements"@)
    &&& rule_push1(rs[9], "^(\\d*\\*\\d*|\\d+)"@, "abnf_token_variable"@, "abnf_state_variable_require_element"@)
    &&& rule_push2(rs[10], "^\\("@, "abnf_token_left_parenthesis"@, "abnf_state_parenthesis_elements"@, "abnf_state_parenthesis_require_elements"@)
    &&& rule_push2(rs[11], "^\\["@, "abnf_token_left_options"@, "abnf_state_options_elements"@, "abnf_state_options_require_elements"@)
}

/// The rules of the state that requires the one element a repetition
/// count applies to.
pub open spec fn variable_require_rules(rs: Seq<LexRule>) -> bool {
    &&& rs.len() == 8
    &&& common_element_rules(rs, true)
    &&& rule_pop1_push2(rs[7], "^\\("@, "abnf_token_left_parenthesis"@, "abnf_state_parenthesis_elements"@, "abnf_state_parenthesis_require_elements"@)
}

/// The whole ABNF lexical-state table: the nine states in registration
/// order, each with its name and its documented ordered rule list.
pub open spec fn abnf_state_table(states: Seq<LexState>) -> bool {
    &&& states.len() == 9
    &&& states[0].name_spec() == "abnf_state_init"@
    &&& states[1].name_spec() == "abnf_state_definer"@
    &&& states[2].name_spec() == "abnf_state_require_elements"@
    &&& states[3].name_spec() == "abnf_state_elements"@
    &&& states[4].name_spec() == "abnf_state_parenthesis_require_elements"@
    &&& states[5].name_spec() == "abnf_state_parenthesis_elements"@
    &&& states[6].name_spec() == "abnf_state_variable_require_element"@
    &&& states[7].name_spec() == "abnf_state_options_require_elements"@
    &&& states[8].name_spec() == "abnf_state_options_elements"@
    &&& init_rules(states[0].rules_spec())
    &&& definer_rules(states[1].rules_spec())
    &&& require_style_rules(states[2].rules_spec())
    &&& elements_rules(states[3].rules_spec())
    &&& require_style_rules(states[4].rules_spec())
    &&& parenthesis_elements_rules(states[5].rules_spec())
    &&& variable_require_rules(states[6].rules_spec())
    &&& require_style_rules(states[7].rules_spec())
    &&& options_elements_rules(states[8].rules_spec())
}

/// The nine state names are pairwise distinct.
proof fn lemma_abnf_state_names_distinct()
    ensures
        "abnf_state_init"@ != "abnf_state_definer"@,
        "abnf_state_init"@ != "abnf_state_require_elements"@,
        "abnf_state_init"@ != "abnf_state_elements"@,
        "abnf_state_init"@ != "abnf_state_parenthesis_require_elements"@,
        "abnf_state_init"@ != "abnf_state_parenthesis_elements"@,
        "abnf_state_init"@ != "abnf_state_variable_require_element"@,
        "abnf_state_init"@ != "abnf_state_options_require_elements"@,
        "abnf_state_init"@ != "abnf_state_options_elements"@,
        "abnf_state_definer"@ != "abnf_state_require_elements"@,
        "abnf_state_definer"@ != "abnf_state_elements"@,
        "abnf_state_definer"@ != "abnf_state_parenthesis_require_elements"@,
        "abnf_state_definer"@ != "abnf_state_parenthesis_elements"@,
        "abnf_state_definer"@ != "abnf_state_variable_require_element"@,
        "abnf_state_definer"@ != "abnf_state_options_require_elements"@,
        "abnf_state_definer"@ != "abnf_state_options_elements"@,
        "abnf_state_require_elements"@ != "abnf_state_elements"@,
        "abnf_state_require_elements"@ != "abnf_state_parenthesis_require_elements"@,
        "abnf_state_require_elements"@ != "abnf_state_parenthesis_elements"@,
        "abnf_state_require_elements"@ != "abnf_state_variable_require_element"@,
        "abnf_state_require_elements"@ != "abnf_state_options_require_elements"@,
        "abnf_state_require_elements"@ != "abnf_state_options_elements"@,
        "abnf_state_elements"@ != "abnf_state_parenthesis_require_elements"@,
        "abnf_state_elements"@ != "abnf_state_parenthesis_elements"@,
        "abnf_state_elements"@ != "abnf_state_variable_require_element"@,
        "abnf_state_elements"@ != "abnf_state_options_require_elements"@,
        "abnf_state_elements"@ != "abnf_state_options_elements"@,
        "abnf_state_parenthesis_require_elements"@ != "abnf_state_parenthesis_elements"@,
        "abnf_state_parenthesis_require_elements"@ != "abnf_state_variable_require_element"@,
        "abnf_state_parenthesis_require_elements"@ != "abnf_state_options_require_elements"@,
        "abnf_state_parenthesis_require_elements"@ != "abnf_state_options_elements"@,
        "abnf_state_parenthesis_elements"@ != "abnf_state_variable_require_element"@,
        "abnf_state_parenthesis_elements"@ != "abnf_state_options_require_elements"@,
        "abnf_state_parenthesis_elements"@ != "abnf_state_options_elements"@,
        "abnf_state_variable_require_element"@ != "abnf_state_options_require_elements"@,
        "abnf_state_variable_require_element"@ != "abnf_state_options_elements"@,
        "abnf_state_options_require_elements"@ != "abnf_state_options_elements"@,
{
    reveal_strlit("abnf_state_init");
    reveal_strlit("abnf_state_definer");
    reveal_strlit("abnf_state_require_elements");
    reveal_strlit("abnf_state_elements");
    reveal_strlit("abnf_state_parenthesis_require_elements");
    reveal_strlit("abnf_state_parenthesis_elements");
    reveal_strlit("abnf_state_variable_require_element");
    reveal_strlit("abnf_state_options_require_elements");
    reveal_strlit("abnf_state_options_elements");
    assert("abnf_state_init"@.len() == 15);
    assert("abnf_state_definer"@.len() == 18);
    assert("abnf_state_require_elements"@.len() == 27);
    assert("abnf_state_elements"@.len() == 19);
    assert("abnf_state_parenthesis_require_elements"@.len() == 39);
    assert("abnf_state_parenthesis_elements"@.len() == 31);
    assert("abnf_state_variable_require_element"@.len() == 35);
    assert("abnf_state_options_require_elements"@.len() == 35);
    assert("abnf_state_options_elements"@.len() == 27);
    assert("abnf_state_variable_require_element"@[11] == 'v');
    assert("abnf_state_options_require_elements"@[11] == 'o');
    assert("abnf_state_require_elements"@[11] == 'r');
    assert("abnf_state_options_elements"@[11] == 'o');
}

/// Cursor, lexical mode, the configuration other than the states, and
/// the custom state are untouched.
pub open spec fn cursor_and_config_preserved(
    a: LexerState<BnfState>,
    b: LexerState<BnfState>,
) -> bool {
    &&& b.wf() == a.wf()
    &&& b.custom_spec() == a.custom_spec()
    &&& b.offset_spec() == a.offset_spec()
    &&& b.line_spec() == a.line_spec()
    &&& b.line_offset_spec() == a.line_offset_spec()
    &&& b.is_eof_spec() == a.is_eof_spec()
    &&& b.stack_spec() == a.stack_spec()
    &&& b.current_spec() == a.current_spec()
    &&& b.ignore_spec() == a.ignore_spec()
    &&& b.eof_spec() == a.eof_spec()
}

/// A grown rule list keeps the earlier rules in place.
proof fn lemma_rules_grow(before: Seq<LexRule>, after: Seq<LexRule>)
    requires
        after.len() == before.len() + 1,
        after.drop_last() == before,
    ensures
        forall|j: int| 0 <= j < before.len() ==> #[trigger] after[j] == before[j],
{
    assert forall|j: int| 0 <= j < before.len() implies #[trigger] after[j] == before[j] by {
        assert(after.drop_last()[j] == after[j]);
    }
}

fn fac_plain(kind: &str) -> (f: TokenFactory)
    ensures
        factory_plain(f, kind@),
        f.ops_spec().len() == 0,
{
    TokenFactory::new(kind)
}

fn fac_pop1(kind: &str) -> (f: TokenFactory)
    ensures
        factory_plain(f, kind@),
        f.ops_spec().len() == 1,
        f.ops_spec()[0] == NextStateChange::Pop(1usize),
{
    let f = TokenFactory::new(kind).pop_state(1);
    proof {
        assert(f.ops_spec() == Seq::<NextStateChange>::empty().push(NextStateChange::Pop(1usize)));
    }
    f
}

fn fac_push1(kind: &str, s1: &str) -> (f: TokenFactory)
    ensures
        factory_plain(f, kind@),
        f.ops_spec().len() == 1,
        op_pushes(f.ops_spec()[0], s1@),
{
    let f = TokenFactory::new(kind).push_state(s1);
    proof {
        assert(f.ops_spec()[0] == f.ops_spec().last());
    }
    f
}

fn fac_pop1_push1(kind: &str, s1: &str) -> (f: TokenFactory)
    ensures
        factory_plain(f, kind@),
        f.ops_spec().len() == 2,
        f.ops_spec()[0] == NextStateChange::Pop(1usize),
        op_pushes(f.ops_spec()[1], s1@),
{
    let f0 = TokenFactory::new(kind).pop_state(1);
    let ghost pre = f0.ops_spec();
    let f = f0.push_state(s1);
    proof {
        assert(pre == Seq::<NextStateChange>::empty().push(NextStateChange::Pop(1usize)));
        assert(f.ops_spec()[0] == f.ops_spec().drop_last()[0]);
        assert(f.ops_spec()[1] == f.ops_spec().last());
    }
    f
}

fn fac_push2(kind: &str, s1: &str, s2: &str) -> (f: TokenFactory)
    ensures
        factory_plain(f, kind@),
        f.ops_spec().len() == 2,
        op_pushes(f.ops_spec()[0], s1@),
        op_pushes(f.ops_spec()[1], s2@),
{
    let f0 = TokenFactory::new(kind).push_state(s1);
    let ghost pre = f0.ops_spec();
    let f = f0.push_state(s2);
    proof {
        assert(pre[0] == pre.last());
        assert(f.ops_spec()[0] == f.ops_spec().drop_last()[0]);
        assert(f.ops_spec()[1] == f.ops_spec().last());
    }
    f
}

fn fac_pop1_push2(kind: &str, s1: &str, s2: &str) -> (f: TokenFactory)
    ensures
        factory_plain(f, kind@),
        f.ops_spec().len() == 3,
        f.ops_spec()[0] == NextStateChange::Pop(1usize),
        op_pushes(f.ops_spec()[1], s1@),
        op_pushes(f.ops_spec()[2], s2@),
{
    let f0 = TokenFactory::new(kind).pop_state(1);
    let ghost pre0 = f0.ops_spec();
    let f1 = f0.push_state(s1);
    let ghost pre1 = f1.ops_spec();
    let f = f1.push_state(s2);
    proof {
        assert(pre0 == Seq::<NextStateChange>::empty().push(NextStateChange::Pop(1usize)));
        assert(pre1[0] == pre1.drop_last()[0]);
        assert(pre1[1] == pre1.last());
        assert(f.ops_spec()[0] == f.ops_spec().drop_last()[0]);
        assert(f.ops_spec()[1] == f.ops_spec().drop_last()[1]);
        assert(f.ops_spec()[2] == f.ops_spec().last());
    }
    f
}

/// Register one more rule on the most recently created state.
fn append_rule_to_last(
    state: &mut LexerState<BnfState>,
    state_name: &str,
    re: &str,
    factory: TokenFactory,
)
    requires
        old(state).wf(),
        old(state).states_spec().len() >= 1,
        old(state).states_spec().last().name_spec() == state_name@,
        forall|i: int|
            0 <= i < old(state).states_spec().len() - 1 ==> #[trigger] old(state).states_spec()[i].name_spec() != state_name@,
    ensures
        cursor_and_config_preserved(*old(state), *final(state)),
        final(state).states_spec().len() == old(state).states_spec().len(),
        forall|i: int|
            0 <= i < old(state).states_spec().len() - 1 ==> #[trigger] final(state).states_spec()[i] == old(state).states_spec()[i],
        final(state).states_spec().last().name_spec() == state_name@,
        crate::lexer_state::rule_list_extended(
            old(state).states_spec().last().rules_spec(),
            final(state).states_spec().last().rules_spec(),
            re@,
            factory,
        ),
{
    proof {
        crate::lexer_state::lemma_find_state_at(
            old(state).states_spec(),
            state_name@,
            old(state).states_spec().len() - 1,
        );
    }
    state.add_token(state_name, re, factory);
}

/// Create the entry of a fresh lexical state and register the seven
/// element rules shared by every element-reading state.
fn add_common_element_tokens(state: &mut LexerState<BnfState>, state_name: &str, pops: bool)
    requires
        old(state).wf(),
        forall|i: int|
            0 <= i < old(state).states_spec().len() ==> #[trigger] old(state).states_spec()[i].name_spec() != state_name@,
    ensures
        cursor_and_config_preserved(*old(state), *final(state)),
        final(state).states_spec().len() == old(state).states_spec().len() + 1,
        forall|i: int|
            0 <= i < old(state).states_spec().len() ==> #[trigger] final(state).states_spec()[i] == old(state).states_spec()[i],
        final(state).states_spec().last().name_spec() == state_name@,
        abnf_patterns_valid() ==> final(state).states_spec().last().rules_spec().len() == 7
            && common_element_rules(final(state).states_spec().last().rules_spec(), pops),
{
    let fc0 = if pops {
        fac_pop1("abnf_token_name")
    } else {
        fac_plain("abnf_token_name")
    };
    proof {
        crate::lexer_state::lemma_find_state_none(old(state).states_spec(), state_name@);
    }
    state.add_token(state_name, "^[a-zA-Z][a-zA-Z0-9\\-]*", fc0);
    proof {
        assert(state.states_spec().last() == state.states_spec()[state.states_spec().len() - 1]);
        if abnf_patterns_valid() {
            let cur = state.states_spec().last().rules_spec();
            assert(cur.len() == 1);
            assert(cur[0] == cur.last());
            assert(rule_element(cur[0], "^[a-zA-Z][a-zA-Z0-9\\-]*"@, "abnf_token_name"@, pops));
        }
    }
    proof {
        assert forall|i: int|
            0 <= i < state.states_spec().len() - 1 implies #[trigger] state.states_spec()[i].name_spec()
            != state_name@ by {
            assert(state.states_spec().drop_last()[i] == state.states_spec()[i]);
        }
    }
    let ghost before1 = state.states_spec().last().rules_spec();
    let f1 = if pops {
        fac_pop1("abnf_token_terminal")
    } else {
        fac_plain("abnf_token_terminal")
    };
    append_rule_to_last(state, state_name, "^%b(0|1)+(\\.(0|1)+)*", f1);
    proof {
        if abnf_patterns_valid() {
            let cur = state.states_spec().last().rules_spec();
            assert(cur.len() == before1.len() + 1);
            lemma_rules_grow(before1, cur);
            assert(cur[1] == cur.last());
            assert(rule_element(cur[1], "^%b(0|1)+(\\.(0|1)+)*"@, "abnf_token_terminal"@, pops));
        }
    }
    let ghost before2 = state.states_spec().last().rules_spec();
    let f2 = if pops {
        fac_pop1("abnf_token_terminal")
    } else {
        fac_plain("abnf_token_terminal")
    };
    append_rule_to_last(state, state_name, "^%d\\d+(\\.\\d+)*", f2);
    proof {
        if abnf_patterns_valid() {
            let cur = state.states_spec().last().rules_spec();
            assert(cur.len() == before2.len() + 1);
            lemma_rules_grow(before2, cur);
            assert(cur[2] == cur.last());
            assert(rule_element(cur[2], "^%d\\d+(\\.\\d+)*"@, "abnf_token_terminal"@, pops));
        }
    }
    let ghost before3 = state.states_spec().last().rules_spec();
    let f3 = if pops {
        fac_pop1("abnf_token_terminal")
    } else {
        fac_plain("abnf_token_terminal")
    };
    append_rule_to_last(state, state_name, "^%h[a-fA-F0-9]+(\\.[a-fA-F0-9]+)*", f3);
    proof {
        if abnf_patterns_valid() {
            let cur = state.states_spec().last().rules_spec();
            assert(cur.len() == before3.len() + 1);
            lemma_rules_grow(before3, cur);
            assert(cur[3] == cur.last());
            assert(rule_element(cur[3], "^%h[a-fA-F0-9]+(\\.[a-fA-F0-9]+)*"@, "abnf_token_terminal"@, pops));
        }
    }
    let ghost before4 = state.states_spec().last().rules_spec();
    let f4 = if pops {
        fac_pop1("abnf_token_terminal")
    } else {
        fac_plain("abnf_token_terminal")
    };
    append_rule_to_last(state, state_name, "^\"(?:\\\\\"|[^\"])*?\"", f4);
    proof {
        if abnf_patterns_valid() {
            let cur = state.states_spec().last().rules_spec();
            assert(cur.len() == before4.len() + 1);
            lemma_rules_grow(before4, cur);
            assert(cur[4] == cur.last());
            assert(rule_element(cur[4], "^\"(?:\\\\\"|[^\"])*?\""@, "abnf_token_terminal"@, pops));
        }
    }
    let ghost before5 = state.states_spec().last().rules_spec();
    let f5 = if pops {
        fac_pop1("abnf_token_range")
    } else {
        fac_plain("abnf_token_range")
    };
    append_rule_to_last(state, state_name, "^%(b(0|1)+-(0|1)+|d\\d+-\\d+|x[a-fA-F0-9]+-[a-fA-F0-9]+)", f5);
    proof {
        if abnf_patterns_valid() {
            let cur = state.states_spec().last().rules_spec();
            assert(cur.len() == before5.len() + 1);
            lemma_rules_grow(before5, cur);
            assert(cur[5] == cur.last());
            assert(rule_element(cur[5], "^%(b(0|1)+-(0|1)+|d\\d+-\\d+|x[a-fA-F0-9]+-[a-fA-F0-9]+)"@, "abnf_token_range"@, pops));
        }
    }
    let ghost before6 = state.states_spec().last().rules_spec();
    let f6 = if pops {
        fac_pop1("abnf_requirement")
    } else {
        fac_plain("abnf_requirement")
    };
    append_rule_to_last(state, state_name, "^<.*?>", f6);
    proof {
        if abnf_patterns_valid() {
            let cur = state.states_spec().last().rules_spec();
            assert(cur.len() == before6.len() + 1);
            lemma_rules_grow(before6, cur);
            assert(cur[6] == cur.last());
            assert(rule_element(cur[6], "^<.*?>"@, "abnf_requirement"@, pops));
        }
    }
}

/// The state that requires one element after the definer or a marker.
fn add_require_style_state_require_elements(state: &mut LexerState<BnfState>)
    requires
        old(state).wf(),
        forall|i: int|
            0 <= i < old(state).states_spec().len() ==> #[trigger] old(state).states_spec()[i].name_spec() != "abnf_state_require_elements"@,
    ensures
        cursor_and_config_preserved(*old(state), *final(state)),
        final(state).states_spec().len() == old(state).states_spec().len() + 1,
        forall|i: int|
            0 <= i < old(state).states_spec().len() ==> #[trigger] final(state).states_spec()[i] == old(state).states_spec()[i],
        final(state).states_spec().last().name_spec() == "abnf_state_require_elements"@,
        abnf_patterns_valid() ==> require_style_rules(final(state).states_spec().last().rules_spec()),
{
    let state_name = "abnf_state_require_elements";
    add_common_element_tokens(state, state_name, true);
    proof {
        assert forall|i: int|
            0 <= i < state.states_spec().len() - 1 implies #[trigger] state.states_spec()[i].name_spec()
            != state_name@ by {
            assert(state.states_spec().drop_last()[i] == state.states_spec()[i]);
        }
    }
    let ghost before7 = state.states_spec().last().rules_spec();
    let f7 = fac_pop1_push1("abnf_token_variable", "abnf_state_variable_require_element");
    append_rule_to_last(state, state_name, "^(\\d*\\*\\d*|\\d+)", f7);
    proof {
        if abnf_patterns_valid() {
            let cur = state.states_spec().last().rules_spec();
            assert(cur.len() == before7.len() + 1);
            lemma_rules_grow(before7, cur);
            assert(cur[7] == cur.last());
            assert(rule_pop1_push1(cur[7], "^(\\d*\\*\\d*|\\d+)"@, "abnf_token_variable"@, "abnf_state_variable_require_element"@));
        }
    }
    let ghost before8 = state.states_spec().last().rules_spec();
    let f8 = fac_pop1_push2("abnf_token_left_parenthesis", "abnf_state_parenthesis_elements", "abnf_state_parenthesis_require_elements");
    append_rule_to_last(state, state_name, "^\\(", f8);
    proof {
        if abnf_patterns_valid() {
            let cur = state.states_spec().last().rules_spec();
            assert(cur.len() == before8.len() + 1);
            lemma_rules_grow(before8, cur);
            assert(cur[8] == cur.last());
            assert(rule_pop1_push2(cur[8], "^\\("@, "abnf_token_left_parenthesis"@, "abnf_state_parenthesis_elements"@, "abnf_state_parenthesis_require_elements"@));
        }
    }
    let ghost before9 = state.states_spec().last().rules_spec();
    let f9 = fac_pop1_push2("abnf_token_left_options", "abnf_state_options_elements", "abnf_state_options_require_elements");
    append_rule_to_last(state, state_name, "^\\[", f9);
    proof {
        if abnf_patterns_valid() {
            let cur = state.states_spec().last().rules_spec();
            assert(cur.len() == before9.len() + 1);
            lemma_rules_grow(before9, cur);
            assert(cur[9] == cur.last());
            assert(rule_pop1_push2(cur[9], "^\\["@, "abnf_token_left_options"@, "abnf_state_options_elements"@, "abnf_state_options_require_elements"@));
        }
    }
}

/// The top-level element-list state.
fn add_elements_state(state: &mut LexerState<BnfState>)
    requires
        old(state).wf(),
        forall|i: int|
            0 <= i < old(state).states_spec().len() ==> #[trigger] old(state).states_spec()[i].name_spec() != "abnf_state_elements"@,
    ensures
        cursor_and_config_preserved(*old(state), *final(state)),
        final(state).states_spec().len() == old(state).states_spec().len() + 1,
        forall|i: int|
            0 <= i < old(state).states_spec().len() ==> #[trigger] final(state).states_spec()[i] == old(state).states_spec()[i],
        final(state).states_spec().last().name_spec() == "abnf_state_elements"@,
        abnf_patterns_valid() ==> elements_rules(final(state).states_spec().last().rules_spec()),
{
    let state_name = "abnf_state_elements";
    add_common_element_tokens(state, state_name, false);
    proof {
        assert forall|i: int|
            0 <= i < state.states_spec().len() - 1 implies #[trigger] state.states_spec()[i].name_spec()
            != state_name@ by {
            assert(state.states_spec().drop_last()[i] == state.states_spec()[i]);
        }
    }
    let ghost before7 = state.states_spec().last().rules_spec();
    let f7 = fac_pop1("abnf_token_end");
    append_rule_to_last(state, state_name, "^;", f7);
    proof {
        if abnf_patterns_valid() {
            let cur = state.states_spec().last().rules_spec();
            assert(cur.len() == before7.len() + 1);
            lemma_rules_grow(before7, cur);
            assert(cur[7] == cur.last());
            assert(rule_pop1(cur[7], "^;"@, "abnf_token_end"@));
        }
    }
    let ghost before8 = state.states_spec().last().rules_spec();
    let f8 = fac_push1("abnf_token_select", "abnf_state_require_elements");
    append_rule_to_last(state, state_name, "^/", f8);
    proof {
        if abnf_patterns_valid() {
            let cur = state.states_spec().last().rules_spec();
            assert(cur.len() == before8.len() + 1);
            lemma_rules_grow(before8, cur);
            assert(cur[8] == cur.last());
            assert(rule_push1(cur[8], "^/"@, "abnf_token_select"@, "abnf_state_require_elements"@));
        }
    }
    let ghost before9 = state.states_spec().last().rules_spec();
    let f9 = fac_push1("abnf_token_variable", "abnf_state_variable_require_element");
    append_rule_to_last(state, state_name, "^(\\d*\\*\\d*|\\d+)", f9);
    proof {
        if abnf_patterns_valid() {
            let cur = state.states_spec().last().rules_spec();
            assert(cur.len() == before9.len() + 1);
            lemma_rules_grow(before9, cur);
            assert(cur[9] == cur.last());
            assert(rule_push1(cur[9], "^(\\d*\\*\\d*|\\d+)"@, "abnf_token_variable"@, "abnf_state_variable_require_element"@));
        }
    }
    let ghost before10 = state.states_spec().last().rules_spec();
    let f10 = fac_push2("abnf_token_left_parenthesis", "abnf_state_parenthesis_elements", "abnf_state_parenthesis_require_elements");
    append_rule_to_last(state, state_name, "^\\(", f10);
    proof {
        if abnf_patterns_valid() {
            let cur = state.states_spec().last().rules_spec();
            assert(cur.len() == before10.len() + 1);
            lemma_rules_grow(before10, cur);
            assert(cur[10] == cur.last());
            assert(rule_push2(cur[10], "^\\("@, "abnf_token_left_parenthesis"@, "abnf_state_parenthesis_elements"@, "abnf_state_parenthesis_require_elements"@));
        }
    }
    let ghost before11 = state.states_spec().last().rules_spec();
    let f11 = fac_push2("abnf_token_left_options", "abnf_state_options_elements", "abnf_state_options_require_elements");
    append_rule_to_last(state, state_name, "^\\[", f11);
    proof {
        if abnf_patterns_valid() {
            let cur = state.states_spec().last().rules_spec();
            assert(cur.len() == before11.len() + 1);
            lemma_rules_grow(before11, cur);
            assert(cur[11] == cur.last());
            assert(rule_push2(cur[11], "^\\["@, "abnf_token_left_options"@, "abnf_state_options_elements"@, "abnf_state_options_require_elements"@));
        }
    }
}

/// The state that requires one element just inside parentheses.
fn add_require_style_state_parenthesis(state: &mut LexerState<BnfState>)
    requires
        old(state).wf(),
        forall|i: int|
            0 <= i < old(state).states_spec().len() ==> #[trigger] old(state).states_spec()[i].name_spec() != "abnf_state_parenthesis_require_elements"@,
    ensures
        cursor_and_config_preserved(*old(state), *final(state)),
        final(state).states_spec().len() == old(state).states_spec().len() + 1,
        forall|i: int|
            0 <= i < old(state).states_spec().len() ==> #[trigger] final(state).states_spec()[i] == old(state).states_spec()[i],
        final(state).states_spec().last().name_spec() == "abnf_state_parenthesis_require_elements"@,
        abnf_patterns_valid() ==> require_style_rules(final(state).states_spec().last().rules_spec()),
{
    let state_name = "abnf_state_parenthesis_require_elements";
    add_common_element_tokens(state, state_name, true);
    proof {
        assert forall|i: int|
            0 <= i < state.states_spec().len() - 1 implies #[trigger] state.states_spec()[i].name_spec()
            != state_name@ by {
            assert(state.states_spec().drop_last()[i] == state.states_spec()[i]);
        }
    }
    let ghost before7 = state.states_spec().last().rules_spec();
    let f7 = fac_pop1_push1("abnf_token_variable", "abnf_state_variable_require_element");
    append_rule_to_last(state, state_name, "^(\\d*\\*\\d*|\\d+)", f7);
    proof {
        if abnf_patterns_valid() {
            let cur = state.states_spec().last().rules_spec();
            assert(cur.len() == before7.len() + 1);
            lemma_rules_grow(before7, cur);
            assert(cur[7] == cur.last());
            assert(rule_pop1_push1(cur[7], "^(\\d*\\*\\d*|\\d+)"@, "abnf_token_variable"@, "abnf_state_variable_require_element"@));
        }
    }
    let ghost before8 = state.states_spec().last().rules_spec();
    let f8 = fac_pop1_push2("abnf_token_left_parenthesis", "abnf_state_parenthesis_elements", "abnf_state_parenthesis_require_elements");
    append_rule_to_last(state, state_name, "^\\(", f8);
    proof {
        if abnf_patterns_valid() {
            let cur = state.states_spec().last().rules_spec();
            assert(cur.len() == before8.len() + 1);
            lemma_rules_grow(before8, cur);
            assert(cur[8] == cur.last());
            assert(rule_pop1_push2(cur[8], "^\\("@, "abnf_token_left_parenthesis"@, "abnf_state_parenthesis_elements"@, "abnf_state_parenthesis_require_elements"@));
        }
    }
    let ghost before9 = state.states_spec().last().rules_spec();
    let f9 = fac_pop1_push2("abnf_token_left_options", "abnf_state_options_elements", "abnf_state_options_require_elements");
    append_rule_to_last(state, state_name, "^\\[", f9);
    proof {
        if abnf_patterns_valid() {
            let cur = state.states_spec().last().rules_spec();
            assert(cur.len() == before9.len() + 1);
            lemma_rules_grow(before9, cur);
            assert(cur[9] == cur.last());
            assert(rule_pop1_push2(cur[9], "^\\["@, "abnf_token_left_options"@, "abnf_state_options_elements"@, "abnf_state_options_require_elements"@));
        }
    }
}

/// The element-list state inside parentheses.
fn add_parenthesis_elements_state(state: &mut LexerState<BnfState>)
    requires
        old(state).wf(),
        forall|i: int|
            0 <= i < old(state).states_spec().len() ==> #[trigger] old(state).states_spec()[i].name_spec() != "abnf_state_parenthesis_elements"@,
    ensures
        cursor_and_config_preserved(*old(state), *final(state)),
        final(state).states_spec().len() == old(state).states_spec().len() + 1,
        forall|i: int|
            0 <= i < old(state).states_spec().len() ==> #[trigger] final(state).states_spec()[i] == old(state).states_spec()[i],
        final(state).states_spec().last().name_spec() == "abnf_state_parenthesis_elements"@,
        abnf_patterns_valid() ==> parenthesis_elements_rules(final(state).states_spec().last().rules_spec()),
{
    let state_name = "abnf_state_parenthesis_elements";
    add_common_element_tokens(state, state_name, false);
    proof {
        assert forall|i: int|
            0 <= i < state.states_spec().len() - 1 implies #[trigger] state.states_spec()[i].name_spec()
            != state_name@ by {
            assert(state.states_spec().drop_last()[i] == state.states_spec()[i]);
        }
    }
    let ghost before7 = state.states_spec().last().rules_spec();
    let f7 = fac_pop1("abnf_token_right_parenthesis");
    append_rule_to_last(state, state_name, "^\\)", f7);
    proof {
        if abnf_patterns_valid() {
            let cur = state.states_spec().last().rules_spec();
            assert(cur.len() == before7.len() + 1);
            lemma_rules_grow(before7, cur);
            assert(cur[7] == cur.last());
            assert(rule_pop1(cur[7], "^\\)"@, "abnf_token_right_parenthesis"@));
        }
    }
    let ghost before8 = state.states_spec().last().rules_spec();
    let f8 = fac_push1("abnf_token_variable", "abnf_state_variable_require_element");
    append_rule_to_last(state, state_name, "^(\\d*\\*\\d*|\\d+)", f8);
    proof {
        if abnf_patterns_valid() {
            let cur = state.states_spec().last().rules_spec();
            assert(cur.len() == before8.len() + 1);
            lemma_rules_grow(before8, cur);
            assert(cur[8] == cur.last());
            assert(rule_push1(cur[8], "^(\\d*\\*\\d*|\\d+)"@, "abnf_token_variable"@, "abnf_state_variable_require_element"@));
        }
    }
    let ghost before9 = state.states_spec().last().rules_spec();
    let f9 = fac_push1("abnf_token_select", "abnf_state_parenthesis_require_elements");
    append_rule_to_last(state, state_name, "^/", f9);
    proof {
        if abnf_patterns_valid() {
            let cur = state.states_spec().last().rules_spec();
            assert(cur.len() == before9.len() + 1);
            lemma_rules_grow(before9, cur);
            assert(cur[9] == cur.last());
            assert(rule_push1(cur[9], "^/"@, "abnf_token_select"@, "abnf_state_parenthesis_require_elements"@));
        }
    }
    let ghost before10 = state.states_spec().last().rules_spec();
    let f10 = fac_push2("abnf_token_left_parenthesis", "abnf_state_parenthesis_elements", "abnf_state_parenthesis_require_elements");
    append_rule_to_last(state, state_name, "^\\(", f10);
    proof {
        if abnf_patterns_valid() {
            let cur = state.states_spec().last().rules_spec();
            assert(cur.len() == before10.len() + 1);
            lemma_rules_grow(before10, cur);
            assert(cur[10] == cur.last());
            assert(rule_push2(cur[10], "^\\("@, "abnf_token_left_parenthesis"@, "abnf_state_parenthesis_elements"@, "abnf_state_parenthesis_require_elements"@));
        }
    }
    let ghost before11 = state.states_spec().last().rules_spec();
    let f11 = fac_push2("abnf_token_left_options", "abnf_state_options_elements", "abnf_state_options_require_elements");
    append_rule_to_last(state, state_name, "^\\[", f11);
    proof {
        if abnf_patterns_valid() {
            let cur = state.states_spec().last().rules_spec();
            assert(cur.len() == before11.len() + 1);
            lemma_rules_grow(before11, cur);
            assert(cur[11] == cur.last());
            assert(rule_push2(cur[11], "^\\["@, "abnf_token_left_options"@, "abnf_state_options_elements"@, "abnf_state_options_require_elements"@));
        }
    }
}

/// The state that requires the one element a repetition count applies to.
fn add_variable_require_state(state: &mut LexerState<BnfState>)
    requires
        old(state).wf(),
        forall|i: int|
            0 <= i < old(state).states_spec().len() ==> #[trigger] old(state).states_spec()[i].name_spec() != "abnf_state_variable_require_element"@,
    ensures
        cursor_and_config_preserved(*old(state), *final(state)),
        final(state).states_spec().len() == old(state).states_spec().len() + 1,
        forall|i: int|
            0 <= i < old(state).states_spec().len() ==> #[trigger] final(state).states_spec()[i] == old(state).states_spec()[i],
        final(state).states_spec().last().name_spec() == "abnf_state_variable_require_element"@,
        abnf_patterns_valid() ==> variable_require_rules(final(state).states_spec().last().rules_spec()),
{
    let state_name = "abnf_state_variable_require_element";
    add_common_element_tokens(state, state_name, true);
    proof {
        assert forall|i: int|
            0 <= i < state.states_spec().len() - 1 implies #[trigger] state.states_spec()[i].name_spec()
            != state_name@ by {
            assert(state.states_spec().drop_last()[i] == state.states_spec()[i]);
        }
    }
    let ghost before7 = state.states_spec().last().rules_spec();
    let f7 = fac_pop1_push2("abnf_token_left_parenthesis", "abnf_state_parenthesis_elements", "abnf_state_parenthesis_require_elements");
    append_rule_to_last(state, state_name, "^\\(", f7);
    proof {
        if abnf_patterns_valid() {
            let cur = state.states_spec().last().rules_spec();
            assert(cur.len() == before7.len() + 1);
            lemma_rules_grow(before7, cur);
            assert(cur[7] == cur.last());
            assert(rule_pop1_push2(cur[7], "^\\("@, "abnf_token_left_parenthesis"@, "abnf_state_parenthesis_elements"@, "abnf_state_parenthesis_require_elements"@));
        }
    }
}

/// The state that requires one element just inside an optional group.
fn add_require_style_state_options(state: &mut LexerState<BnfState>)
    requires
        old(state).wf(),
        forall|i: int|
            0 <= i < old(state).states_spec().len() ==> #[trigger] old(state).states_spec()[i].name_spec() != "abnf_state_options_require_elements"@,
    ensures
        cursor_and_config_preserved(*old(state), *final(state)),
        final(state).states_spec().len() == old(state).states_spec().len() + 1,
        forall|i: int|
            0 <= i < old(state).states_spec().len() ==> #[trigger] final(state).states_spec()[i] == old(state).states_spec()[i],
        final(state).states_spec().last().name_spec() == "abnf_state_options_require_elements"@,
        abnf_patterns_valid() ==> require_style_rules(final(state).states_spec().last().rules_spec()),
{
    let state_name = "abnf_state_options_require_elements";
    add_common_element_tokens(state, state_name, true);
    proof {
        assert forall|i: int|
            0 <= i < state.states_spec().len() - 1 implies #[trigger] state.states_spec()[i].name_spec()
            != state_name@ by {
            assert(state.states_spec().drop_last()[i] == state.states_spec()[i]);
        }
    }
    let ghost before7 = state.states_spec().last().rules_spec();
    let f7 = fac_pop1_push1("abnf_token_variable", "abnf_state_variable_require_element");
    append_rule_to_last(state, state_name, "^(\\d*\\*\\d*|\\d+)", f7);
    proof {
        if abnf_patterns_valid() {
            let cur = state.states_spec().last().rules_spec();
            assert(cur.len() == before7.len() + 1);
            lemma_rules_grow(before7, cur);
            assert(cur[7] == cur.last());
            assert(rule_pop1_push1(cur[7], "^(\\d*\\*\\d*|\\d+)"@, "abnf_token_variable"@, "abnf_state_variable_require_element"@));
        }
    }
    let ghost before8 = state.states_spec().last().rules_spec();
    let f8 = fac_pop1_push2("abnf_token_left_parenthesis", "abnf_state_parenthesis_elements", "abnf_state_parenthesis_require_elements");
    append_rule_to_last(state, state_name, "^\\(", f8);
    proof {
        if abnf_patterns_valid() {
            let cur = state.states_spec().last().rules_spec();
            assert(cur.len() == before8.len() + 1);
            lemma_rules_grow(before8, cur);
            assert(cur[8] == cur.last());
            assert(rule_pop1_push2(cur[8], "^\\("@, "abnf_token_left_parenthesis"@, "abnf_state_parenthesis_elements"@, "abnf_state_parenthesis_require_elements"@));
        }
    }
    let ghost before9 = state.states_spec().last().rules_spec();
    let f9 = fac_pop1_push2("abnf_token_left_options", "abnf_state_options_elements", "abnf_state_options_require_elements");
    append_rule_to_last(state, state_name, "^\\[", f9);
    proof {
        if abnf_patterns_valid() {
            let cur = state.states_spec().last().rules_spec();
            assert(cur.len() == before9.len() + 1);
            lemma_rules_grow(before9, cur);
            assert(cur[9] == cur.last());
            assert(rule_pop1_push2(cur[9], "^\\["@, "abnf_token_left_options"@, "abnf_state_options_elements"@, "abnf_state_options_require_elements"@));
        }
    }
}

/// The element-list state inside an optional group.
fn add_options_elements_state(state: &mut LexerState<BnfState>)
    requires
        old(state).wf(),
        forall|i: int|
            0 <= i < old(state).states_spec().len() ==> #[trigger] old(state).states_spec()[i].name_spec() != "abnf_state_options_elements"@,
    ensures
        cursor_and_config_preserved(*old(state), *final(state)),
        final(state).states_spec().len() == old(state).states_spec().len() + 1,
        forall|i: int|
            0 <= i < old(state).states_spec().len() ==> #[trigger] final(state).states_spec()[i] == old(state).states_spec()[i],
        final(state).states_spec().last().name_spec() == "abnf_state_options_elements"@,
        abnf_patterns_valid() ==> options_elements_rules(final(state).states_spec().last().rules_spec()),
{
    let state_name = "abnf_state_options_elements";
    add_common_element_tokens(state, state_name, false);
    proof {
        assert forall|i: int|
            0 <= i < state.states_spec().len() - 1 implies #[trigger] state.states_spec()[i].name_spec()
            != state_name@ by {
            assert(state.states_spec().drop_last()[i] == state.states_spec()[i]);
        }
    }
    let ghost before7 = state.states_spec().last().rules_spec();
    let f7 = fac_pop1("abnf_token_right_options");
    append_rule_to_last(state, state_name, "^\\]", f7);
    proof {
        if abnf_patterns_valid() {
            let cur = state.states_spec().last().rules_spec();
            assert(cur.len() == before7.len() + 1);
            lemma_rules_grow(before7, cur);
            assert(cur[7] == cur.last());
            assert(rule_pop1(cur[7], "^\\]"@, "abnf_token_right_options"@));
        }
    }
    let ghost before8 = state.states_spec().last().rules_spec();
    let f8 = fac_push1("abnf_token_select", "abnf_state_options_require_elements");
    append_rule_to_last(state, state_name, "^/", f8);
    proof {
        if abnf_patterns_valid() {
            let cur = state.states_spec().last().rules_spec();
            assert(cur.len() == before8.len() + 1);
            lemma_rules_grow(before8, cur);
            assert(cur[8] == cur.last());
            assert(rule_push1(cur[8], "^/"@, "abnf_token_select"@, "abnf_state_options_require_elements"@));
        }
    }
    let ghost before9 = state.states_spec().last().rules_spec();
    let f9 = fac_push1("abnf_token_variable", "abnf_state_variable_require_element");
    append_rule_to_last(state, state_name, "^(\\d*\\*\\d*|\\d+)", f9);
    proof {
        if abnf_patterns_valid() {
            let cur = state.states_spec().last().rules_spec();
            assert(cur.len() == before9.len() + 1);
            lemma_rules_grow(before9, cur);
            assert(cur[9] == cur.last());
            assert(rule_push1(cur[9], "^(\\d*\\*\\d*|\\d+)"@, "abnf_token_variable"@, "abnf_state_variable_require_element"@));
        }
    }
    let ghost before10 = state.states_spec().last().rules_spec();
    let f10 = fac_push2("abnf_token_left_parenthesis", "abnf_state_parenthesis_elements", "abnf_state_parenthesis_require_elements");
    append_rule_to_last(state, state_name, "^\\(", f10);
    proof {
        if abnf_patterns_valid() {
            let cur = state.states_spec().last().rules_spec();
            assert(cur.len() == before10.len() + 1);
            lemma_rules_grow(before10, cur);
            assert(cur[10] == cur.last());
            assert(rule_push2(cur[10], "^\\("@, "abnf_token_left_parenthesis"@, "abnf_state_parenthesis_elements"@, "abnf_state_parenthesis_require_elements"@));
        }
    }
    let ghost before11 = state.states_spec().last().rules_spec();
    let f11 = fac_push2("abnf_token_left_options", "abnf_state_options_elements", "abnf_state_options_require_elements");
    append_rule_to_last(state, state_name, "^\\[", f11);
    proof {
        if abnf_patterns_valid() {
            let cur = state.states_spec().last().rules_spec();
            assert(cur.len() == before11.len() + 1);
            lemma_rules_grow(before11, cur);
            assert(cur[11] == cur.last());
            assert(rule_push2(cur[11], "^\\["@, "abnf_token_left_options"@, "abnf_state_options_elements"@, "abnf_state_options_require_elements"@));
        }
    }
}

/// A tokenizer engine loaded with the ABNF lexical states, ready to read
/// grammar source text. The registered states are pinned by
/// `abnf_state_table`, under the premise that the regex engine accepts
/// the table's patterns.
pub fn new_lexer_state() -> (r: LexerState<BnfState>)
    ensures
        r.wf(),
        r.offset_spec() == 0,
        r.line_spec() == 1,
        r.line_offset_spec() == 0,
        !r.is_eof_spec(),
        r.stack_spec() == Seq::<Seq<char>>::empty(),
        r.current_spec() == "abnf_state_init"@,
        r.eof_spec() == Some(("abnf_token_eof"@, ""@)),
        crate::pattern::regex_valid("^( |\\t)"@) ==> r.ignore_spec() == Some("^( |\\t)"@),
        r.states_spec().len() == 9,
        abnf_patterns_valid() ==> abnf_state_table(r.states_spec()),
{
    let mut state = LexerState::new(abnf_state_init(), BnfState::new());
    state.set_eof(abnf_token_eof(), "");
    state.set_ignore("^( |\\t)");
    proof {
        lemma_abnf_state_names_distinct();
        crate::lexer_state::lemma_find_state_none(state.states_spec(), "abnf_state_init"@);
    }
    let f_init = fac_push1("abnf_token_name", "abnf_state_definer");
    state.add_token(abnf_state_init(), "^[a-zA-Z][a-zA-Z0-9\\-]*", f_init);
    proof {
        assert(state.states_spec().len() == 1);
        assert(state.states_spec()[0] == state.states_spec().last());
        assert(state.states_spec()[0].name_spec() == "abnf_state_init"@);
        if abnf_patterns_valid() {
            let rs = state.states_spec()[0].rules_spec();
            assert(rs.len() == 1);
            assert(rs[0] == rs.last());
            assert(init_rules(rs));
        }
    }
    proof {
        assert forall|i: int|
            0 <= i < state.states_spec().len() implies #[trigger] state.states_spec()[i].name_spec() != "abnf_state_definer"@ by {}
        crate::lexer_state::lemma_find_state_none(state.states_spec(), "abnf_state_definer"@);
    }
    let f_def = fac_pop1_push2("abnf_token_definer", "abnf_state_elements", "abnf_state_require_elements");
    state.add_token(abnf_state_definer(), "^=/?", f_def);
    proof {
        assert(state.states_spec().len() == 2);
        assert(state.states_spec()[1] == state.states_spec().last());
        assert(state.states_spec()[0].name_spec() == "abnf_state_init"@);
        assert(state.states_spec()[1].name_spec() == "abnf_state_definer"@);
        if abnf_patterns_valid() {
            assert(init_rules(state.states_spec()[0].rules_spec()));
            let rs = state.states_spec()[1].rules_spec();
            assert(rs.len() == 1);
            assert(rs[0] == rs.last());
            assert(definer_rules(rs));
        }
    }
    proof {
        assert forall|i: int|
            0 <= i < state.states_spec().len() implies #[trigger] state.states_spec()[i].name_spec() != "abnf_state_require_elements"@ by {}
    }
    add_require_style_state_require_elements(&mut state);
    proof {
        assert(state.states_spec().len() == 3);
        assert(state.states_spec()[2] == state.states_spec().last());
        assert(state.states_spec()[0].name_spec() == "abnf_state_init"@);
        assert(state.states_spec()[1].name_spec() == "abnf_state_definer"@);
        assert(state.states_spec()[2].name_spec() == "abnf_state_require_elements"@);
        if abnf_patterns_valid() {
            assert(init_rules(state.states_spec()[0].rules_spec()));
            assert(definer_rules(state.states_spec()[1].rules_spec()));
            assert(require_style_rules(state.states_spec()[2].rules_spec()));
        }
    }
    proof {
        assert forall|i: int|
            0 <= i < state.states_spec().len() implies #[trigger] state.states_spec()[i].name_spec() != "abnf_state_elements"@ by {}
    }
    add_elements_state(&mut state);
    proof {
        assert(state.states_spec().len() == 4);
        assert(state.states_spec()[3] == state.states_spec().last());
        assert(state.states_spec()[0].name_spec() == "abnf_state_init"@);
        assert(state.states_spec()[1].name_spec() == "abnf_state_definer"@);
        assert(state.states_spec()[2].name_spec() == "abnf_state_require_elements"@);
        assert(state.states_spec()[3].name_spec() == "abnf_state_elements"@);
        if abnf_patterns_valid() {
            assert(init_rules(state.states_spec()[0].rules_spec()));
            assert(definer_rules(state.states_spec()[1].rules_spec()));
            assert(require_style_rules(state.states_spec()[2].rules_spec()));
            assert(elements_rules(state.states_spec()[3].rules_spec()));
        }
    }
    proof {
        assert forall|i: int|
            0 <= i < state.states_spec().len() implies #[trigger] state.states_spec()[i].name_spec() != "abnf_state_parenthesis_require_elements"@ by {}
    }
    add_require_style_state_parenthesis(&mut state);
    proof {
        assert(state.states_spec().len() == 5);
        assert(state.states_spec()[4] == state.states_spec().last());
        assert(state.states_spec()[0].name_spec() == "abnf_state_init"@);
        assert(state.states_spec()[1].name_spec() == "abnf_state_definer"@);
        assert(state.states_spec()[2].name_spec() == "abnf_state_require_elements"@);
        assert(state.states_spec()[3].name_spec() == "abnf_state_elements"@);
        assert(state.states_spec()[4].name_spec() == "abnf_state_parenthesis_require_elements"@);
        if abnf_patterns_valid() {
            assert(init_rules(state.states_spec()[0].rules_spec()));
            assert(definer_rules(state.states_spec()[1].rules_spec()));
            assert(require_style_rules(state.states_spec()[2].rules_spec()));
            assert(elements_rules(state.states_spec()[3].rules_spec()));
            assert(require_style_rules(state.states_spec()[4].rules_spec()));
        }
    }
    proof {
        assert forall|i: int|
            0 <= i < state.states_spec().len() implies #[trigger] state.states_spec()[i].name_spec() != "abnf_state_parenthesis_elements"@ by {}
    }
    add_parenthesis_elements_state(&mut state);
    proof {
        assert(state.states_spec().len() == 6);
        assert(state.states_spec()[5] == state.states_spec().last());
        assert(state.states_spec()[0].name_spec() == "abnf_state_init"@);
        assert(state.states_spec()[1].name_spec() == "abnf_state_definer"@);
        assert(state.states_spec()[2].name_spec() == "abnf_state_require_elements"@);
        assert(state.states_spec()[3].name_spec() == "abnf_state_elements"@);
        assert(state.states_spec()[4].name_spec() == "abnf_state_parenthesis_require_elements"@);
        assert(state.states_spec()[5].name_spec() == "abnf_state_parenthesis_elements"@);
        if abnf_patterns_valid() {
            assert(init_rules(state.states_spec()[0].rules_spec()));
            assert(definer_rules(state.states_spec()[1].rules_spec()));
            assert(require_style_rules(state.states_spec()[2].rules_spec()));
            assert(elements_rules(state.states_spec()[3].rules_spec()));
            assert(require_style_rules(state.states_spec()[4].rules_spec()));
            assert(parenthesis_elements_rules(state.states_spec()[5].rules_spec()));
        }
    }
    proof {
        assert forall|i: int|
            0 <= i < state.states_spec().len() implies #[trigger] state.states_spec()[i].name_spec() != "abnf_state_variable_require_element"@ by {}
    }
    add_variable_require_state(&mut state);
    proof {
        assert(state.states_spec().len() == 7);
        assert(state.states_spec()[6] == state.states_spec().last());
        assert(state.states_spec()[0].name_spec() == "abnf_state_init"@);
        assert(state.states_spec()[1].name_spec() == "abnf_state_definer"@);
        assert(state.states_spec()[2].name_spec() == "abnf_state_require_elements"@);
        assert(state.states_spec()[3].name_spec() == "abnf_state_elements"@);
        assert(state.states_spec()[4].name_spec() == "abnf_state_parenthesis_require_elements"@);
        assert(state.states_spec()[5].name_spec() == "abnf_state_parenthesis_elements"@);
        assert(state.states_spec()[6].name_spec() == "abnf_state_variable_require_element"@);
        if abnf_patterns_valid() {
            assert(init_rules(state.states_spec()[0].rules_spec()));
            assert(definer_rules(state.states_spec()[1].rules_spec()));
            assert(require_style_rules(state.states_spec()[2].rules_spec()));
            assert(elements_rules(state.states_spec()[3].rules_spec()));
            assert(require_style_rules(state.states_spec()[4].rules_spec()));
            assert(parenthesis_elements_rules(state.states_spec()[5].rules_spec()));
            assert(variable_require_rules(state.states_spec()[6].rules_spec()));
        }
    }
    proof {
        assert forall|i: int|
            0 <= i < state.states_spec().len() implies #[trigger] state.states_spec()[i].name_spec() != "abnf_state_options_require_elements"@ by {}
    }
    add_require_style_state_options(&mut state);
    proof {
        assert(state.states_spec().len() == 8);
        assert(state.states_spec()[7] == state.states_spec().last());
        assert(state.states_spec()[0].name_spec() == "abnf_state_init"@);
        assert(state.states_spec()[1].name_spec() == "abnf_state_definer"@);
        assert(state.states_spec()[2].name_spec() == "abnf_state_require_elements"@);
        assert(state.states_spec()[3].name_spec() == "abnf_state_elements"@);
        assert(state.states_spec()[4].name_spec() == "abnf_state_parenthesis_require_elements"@);
        assert(state.states_spec()[5].name_spec() == "abnf_state_parenthesis_elements"@);
        assert(state.states_spec()[6].name_spec() == "abnf_state_variable_require_element"@);
        assert(state.states_spec()[7].name_spec() == "abnf_state_options_require_elements"@);
        if abnf_patterns_valid() {
            assert(init_rules(state.states_spec()[0].rules_spec()));
            assert(definer_rules(state.states_spec()[1].rules_spec()));
            assert(require_style_rules(state.states_spec()[2].rules_spec()));
            assert(elements_rules(state.states_spec()[3].rules_spec()));
            assert(require_style_rules(state.states_spec()[4].rules_spec()));
            assert(parenthesis_elements_rules(state.states_spec()[5].rules_spec()));
            assert(variable_require_rules(state.states_spec()[6].rules_spec()));
            assert(require_style_rules(state.states_spec()[7].rules_spec()));
        }
    }
    proof {
        assert forall|i: int|
            0 <= i < state.states_spec().len() implies #[trigger] state.states_spec()[i].name_spec() != "abnf_state_options_elements"@ by {}
    }
    add_options_elements_state(&mut state);
    proof {
        assert(state.states_spec().len() == 9);
        assert(state.states_spec()[8] == state.states_spec().last());
        assert(state.states_spec()[0].name_spec() == "abnf_state_init"@);
        assert(state.states_spec()[1].name_spec() == "abnf_state_definer"@);
        assert(state.states_spec()[2].name_spec() == "abnf_state_require_elements"@);
        assert(state.states_spec()[3].name_spec() == "abnf_state_elements"@);
        assert(state.states_spec()[4].name_spec() == "abnf_state_parenthesis_require_elements"@);
        assert(state.states_spec()[5].name_spec() == "abnf_state_parenthesis_elements"@);
        assert(state.states_spec()[6].name_spec() == "abnf_state_variable_require_element"@);
        assert(state.states_spec()[7].name_spec() == "abnf_state_options_require_elements"@);
        assert(state.states_spec()[8].name_spec() == "abnf_state_options_elements"@);
        if abnf_patterns_valid() {
            assert(init_rules(state.states_spec()[0].rules_spec()));
            assert(definer_rules(state.states_spec()[1].rules_spec()));
            assert(require_style_rules(state.states_spec()[2].rules_spec()));
            assert(elements_rules(state.states_spec()[3].rules_spec()));
            assert(require_style_rules(state.states_spec()[4].rules_spec()));
            assert(parenthesis_elements_rules(state.states_spec()[5].rules_spec()));
            assert(variable_require_rules(state.states_spec()[6].rules_spec()));
            assert(require_style_rules(state.states_spec()[7].rules_spec()));
            assert(options_elements_rules(state.states_spec()[8].rules_spec()));
        }
    }
    state
}

} // verus!
