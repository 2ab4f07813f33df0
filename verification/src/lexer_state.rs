//! The tokenizer engine: a cursor into a source buffer, a pushdown stack of
//! lexical states, per-state ordered pattern lists, an ignorable pattern and
//! an end-of-input token. `next` yields one token per call; its whole
//! behaviour is pinned down by `next_outcome` below, a pure mirror stated
//! over the named regex results of `crate::pattern`.

use vstd::prelude::*;
use crate::errors::ParseError;
use crate::pattern::{regex_find, regex_valid, CompiledPattern};
use crate::position::Position;
use crate::state_change::{NextStateChange, StateChange};
use crate::token::Token;
use crate::token_factory::TokenFactory;

verus! {

/// Addition on the cursor counters: sticks at the machine maximum instead
/// of wrapping.
pub open spec fn sat_add_usize(a: int, b: int) -> int {
    if a + b > usize::MAX {
        usize::MAX as int
    } else {
        a + b
    }
}

fn sat_add(a: usize, b: usize) -> (r: usize)
    ensures
        r as int == sat_add_usize(a as int, b as int),
{
    if b > usize::MAX - a {
        usize::MAX
    } else {
        a + b
    }
}

/// The character views of a stack of state names.
pub open spec fn views_of(names: Seq<String>) -> Seq<Seq<char>> {
    names.map_values(|s: String| s@)
}

/// A value-identical copy of a list of state names.
fn copy_strings(v: &Vec<String>) -> (r: Vec<String>)
    ensures
        r@ == v@,
{
    let v_len = v.len();
    let mut r: Vec<String> = Vec::new();
    let mut i: usize = 0;
    while i < v_len
        invariant
            i <= v_len,
            v_len == v@.len(),
            r@.len() == i,
            forall|k: int| 0 <= k < i ==> r@[k] == v@[k],
        decreases v_len - i,
    {
        r.push(v[i].clone());
        i = i + 1;
    }
    proof {
        assert(r@ =~= v@);
    }
    r
}

/// Where the cursor stands after skipping the ignorable pattern: as long as
/// the pattern finds a non-empty match in the rest of the buffer, the cursor
/// advances by the match's length.
pub open spec fn skip_spec(pat: Seq<char>, src: Seq<char>, offset: int) -> int
    decreases src.len() - offset,
        when 0 <= offset <= src.len()
{
    match regex_find(pat, src.subrange(offset, src.len() as int)) {
        None => offset,
        Some((s, e)) => {
            let l = e - s;
            if 0 <= s && 0 < l && offset + l <= src.len() {
                skip_spec(pat, src, offset + l)
            } else {
                offset
            }
        },
    }
}

/// The index of the first rule at or after `i` whose pattern matches `text`.
pub open spec fn first_match(rules: Seq<LexRule>, text: Seq<char>, i: int) -> Option<int>
    decreases rules.len() - i,
        when 0 <= i <= rules.len()
{
    if i >= rules.len() {
        None
    } else if regex_find(rules[i].pattern_spec(), text) is Some {
        Some(i)
    } else {
        first_match(rules, text, i + 1)
    }
}

/// The index of the first lexical state at or after `i` with the given name.
pub open spec fn find_state(states: Seq<LexState>, name: Seq<char>, i: int) -> Option<int>
    decreases states.len() - i,
        when 0 <= i <= states.len()
{
    if i >= states.len() {
        None
    } else if states[i].name_spec() == name {
        Some(i)
    } else {
        find_state(states, name, i + 1)
    }
}

/// The scan for a name finds nothing at or after `i` when no state there
/// carries it.
proof fn lemma_find_state_none_from(states: Seq<LexState>, name: Seq<char>, i: int)
    requires
        0 <= i <= states.len(),
        forall|k: int| i <= k < states.len() ==> #[trigger] states[k].name_spec() != name,
    ensures
        find_state(states, name, i) is None,
    decreases states.len() - i,
{
    if i < states.len() {
        lemma_find_state_none_from(states, name, i + 1);
    }
}

/// A name carried by no state is not found.
pub proof fn lemma_find_state_none(states: Seq<LexState>, name: Seq<char>)
    requires
        forall|k: int| 0 <= k < states.len() ==> #[trigger] states[k].name_spec() != name,
    ensures
        find_state(states, name, 0) is None,
{
    lemma_find_state_none_from(states, name, 0);
}

/// The scan from `i` finds the state at `j` when it carries the name and
/// no earlier state from `i` on does.
proof fn lemma_find_state_at_from(states: Seq<LexState>, name: Seq<char>, j: int, i: int)
    requires
        0 <= i <= j < states.len(),
        states[j].name_spec() == name,
        forall|k: int| i <= k < j ==> #[trigger] states[k].name_spec() != name,
    ensures
        find_state(states, name, i) == Some(j),
    decreases j - i,
{
    if i < j {
        lemma_find_state_at_from(states, name, j, i + 1);
    }
}

/// A name is found at the first state that carries it.
pub proof fn lemma_find_state_at(states: Seq<LexState>, name: Seq<char>, j: int)
    requires
        0 <= j < states.len(),
        states[j].name_spec() == name,
        forall|k: int| 0 <= k < j ==> #[trigger] states[k].name_spec() != name,
    ensures
        find_state(states, name, 0) == Some(j),
{
    lemma_find_state_at_from(states, name, j, 0);
}

/// The ordered rule list registered for a state name; empty when the name
/// was never registered.
pub open spec fn rules_for(states: Seq<LexState>, name: Seq<char>) -> Seq<LexRule> {
    match find_state(states, name, 0) {
        None => Seq::<LexRule>::empty(),
        Some(i) => states[i].rules_spec(),
    }
}

/// Restore the n-th most recently remembered state; popping past the bottom
/// leaves the current state unchanged.
pub open spec fn apply_pop(stack: Seq<Seq<char>>, current: Seq<char>, times: int) -> (Seq<
    Seq<char>,
>, Seq<char>)
    decreases times,
        when times >= 0
{
    if times <= 0 || stack.len() == 0 {
        (stack, current)
    } else {
        apply_pop(stack.drop_last(), stack.last(), times - 1)
    }
}

/// Remembering the current state with a push and then popping one level
/// returns the lexical mode to exactly what it was before the push: the
/// same remembered states and the same current state — at any nesting
/// depth, since `stack` here is arbitrary.
pub proof fn lemma_push_then_pop(stack: Seq<Seq<char>>, current: Seq<char>, pushed: Seq<char>)
    ensures
        apply_pop(stack.push(current), pushed, 1) == (stack, current),
{
    let grown = stack.push(current);
    assert(grown.drop_last() =~= stack);
    assert(grown.last() == current);
    assert(apply_pop(grown.drop_last(), grown.last(), 0) == (grown.drop_last(), grown.last()));
}

/// One stack operation.
pub open spec fn apply_op(stack: Seq<Seq<char>>, current: Seq<char>, op: NextStateChange) -> (Seq<
    Seq<char>,
>, Seq<char>) {
    match op {
        NextStateChange::Push(s) => (stack.push(current), s@),
        NextStateChange::Pop(n) => apply_pop(stack, current, n as int),
    }
}

/// The stack operations from index `i` on, applied in order.
pub open spec fn apply_ops(
    stack: Seq<Seq<char>>,
    current: Seq<char>,
    ops: Seq<NextStateChange>,
    i: int,
) -> (Seq<Seq<char>>, Seq<char>)
    decreases ops.len() - i,
        when 0 <= i <= ops.len()
{
    if i >= ops.len() {
        (stack, current)
    } else {
        let next = apply_op(stack, current, ops[i]);
        apply_ops(next.0, next.1, ops, i + 1)
    }
}

/// What one `next` call returns, as plain mathematical data.
pub ghost struct TokenModel {
    pub ty: Seq<char>,
    pub text: Seq<char>,
    pub loc: Option<LocModel>,
}

/// A source span as plain integers.
pub ghost struct LocModel {
    pub bline: int,
    pub bcol: int,
    pub eline: int,
    pub ecol: int,
}

/// The full effect of one `next` call: the new cursor, the new stack, and
/// the returned token or failure.
pub ghost struct LexOutcome {
    pub offset: int,
    pub line: int,
    pub line_offset: int,
    pub is_eof: bool,
    pub stack: Seq<Seq<char>>,
    pub current: Seq<char>,
    pub result: Result<TokenModel, ParseError>,
}

/// Whether an executable token carries exactly the modelled data.
pub open spec fn token_fits(t: Token, m: TokenModel) -> bool {
    &&& t.ty() == m.ty
    &&& t.text() == m.text
    &&& (match (t.loc(), m.loc) {
        (None, None) => true,
        (Some(l), Some(lm)) => {
            &&& l.begin_spec().line_spec() as int == lm.bline
            &&& l.begin_spec().column_spec() as int == lm.bcol
            &&& l.end_spec().line_spec() as int == lm.eline
            &&& l.end_spec().column_spec() as int == lm.ecol
        },
        _ => false,
    })
}

/// Whether an executable result carries exactly the modelled data.
pub open spec fn result_fits(r: Result<Token, ParseError>, m: Result<
    TokenModel,
    ParseError,
>) -> bool {
    match (r, m) {
        (Ok(t), Ok(tm)) => token_fits(t, tm),
        (Err(e), Err(em)) => e == em,
        _ => false,
    }
}

/// One pattern with the factory that fires when it matches first.
pub struct LexRule {
    pattern: CompiledPattern,
    factory: TokenFactory,
}

impl LexRule {
    /// The pattern text of this rule.
    pub closed spec fn pattern_spec(&self) -> Seq<char> {
        self.pattern.pat()
    }

    /// The factory of this rule.
    pub closed spec fn factory_spec(&self) -> TokenFactory {
        self.factory
    }
}

/// One lexical state: its name and its ordered rule list.
pub struct LexState {
    name: String,
    rules: Vec<LexRule>,
}

impl LexState {
    /// The name of this state.
    pub closed spec fn name_spec(&self) -> Seq<char> {
        self.name@
    }

    /// The ordered rule list of this state.
    pub closed spec fn rules_spec(&self) -> Seq<LexRule> {
        self.rules@
    }
}

/// An immutable capture of the lexical mode: the remembered states and the
/// current one.
pub struct LexerTokenSnapshot {
    state_stack: Vec<String>,
    current_state: String,
}

impl LexerTokenSnapshot {
    /// The remembered states of this capture.
    pub closed spec fn stack_spec(&self) -> Seq<Seq<char>> {
        views_of(self.state_stack@)
    }

    /// The current state of this capture.
    pub closed spec fn current_spec(&self) -> Seq<char> {
        self.current_state@
    }

    pub fn new(state_stack: Vec<String>, current_state: String) -> (r: LexerTokenSnapshot)
        ensures
            r.stack_spec() == views_of(state_stack@),
            r.current_spec() == current_state@,
    {
        LexerTokenSnapshot { state_stack, current_state }
    }

    pub fn get_state_stack(&self) -> (r: Vec<String>)
        ensures
            views_of(r@) == self.stack_spec(),
    {
        copy_strings(&self.state_stack)
    }

    pub fn get_current_state(&self) -> (r: &str)
        ensures
            r@ == self.current_spec(),
    {
        self.current_state.as_str()
    }
}

/// An immutable capture of the full cursor and lexical mode — including
/// whether the end of input was already reached — sufficient to fully
/// restore tokenizer position for speculative consumption by a caller.
pub struct LexerStateSnapshot {
    offset: usize,
    line: usize,
    line_offset: usize,
    is_eof: bool,
    token_snapshot: LexerTokenSnapshot,
}

impl LexerStateSnapshot {
    pub closed spec fn offset_spec(&self) -> usize {
        self.offset
    }

    pub closed spec fn line_spec(&self) -> usize {
        self.line
    }

    pub closed spec fn line_offset_spec(&self) -> usize {
        self.line_offset
    }

    pub closed spec fn is_eof_spec(&self) -> bool {
        self.is_eof
    }

    pub closed spec fn token_snapshot_spec(&self) -> LexerTokenSnapshot {
        self.token_snapshot
    }

    /// A capture is well formed when its cursor is at or after the start of
    /// its line.
    pub open spec fn wf(&self) -> bool {
        self.line_offset_spec() <= self.offset_spec()
    }

    pub fn new(
        offset: usize,
        line: usize,
        line_offset: usize,
        is_eof: bool,
        token_snapshot: LexerTokenSnapshot,
    ) -> (r: LexerStateSnapshot)
        ensures
            r.offset_spec() == offset,
            r.line_spec() == line,
            r.line_offset_spec() == line_offset,
            r.is_eof_spec() == is_eof,
            r.token_snapshot_spec() == token_snapshot,
    {
        LexerStateSnapshot { offset, line, line_offset, is_eof, token_snapshot }
    }

    pub fn get_offset(&self) -> (r: usize)
        ensures
            r == self.offset_spec(),
    {
        self.offset
    }

    pub fn get_line(&self) -> (r: usize)
        ensures
            r == self.line_spec(),
    {
        self.line
    }

    pub fn get_line_offset(&self) -> (r: usize)
        ensures
            r == self.line_offset_spec(),
    {
        self.line_offset
    }

    pub fn get_is_eof(&self) -> (r: bool)
        ensures
            r == self.is_eof_spec(),
    {
        self.is_eof
    }

    pub fn get_token_snapshot(&self) -> (r: &LexerTokenSnapshot)
        ensures
            r == self.token_snapshot_spec(),
    {
        &self.token_snapshot
    }
}

/// The tokenizer engine. `S` is a caller-supplied custom state value owned
/// by the engine for the duration of a session.
pub struct LexerState<S> {
    custom_state: S,
    offset: usize,
    line: usize,
    line_offset: usize,
    ignore_pattern: Option<CompiledPattern>,
    eof_token: Option<(String, String)>,
    is_eof: bool,
    state_stack: Vec<String>,
    current_state: String,
    states: Vec<LexState>,
}

impl<S> LexerState<S> {
    pub closed spec fn custom_spec(&self) -> S {
        self.custom_state
    }

    pub closed spec fn offset_spec(&self) -> usize {
        self.offset
    }

    pub closed spec fn line_spec(&self) -> usize {
        self.line
    }

    pub closed spec fn line_offset_spec(&self) -> usize {
        self.line_offset
    }

    pub closed spec fn is_eof_spec(&self) -> bool {
        self.is_eof
    }

    pub closed spec fn stack_spec(&self) -> Seq<Seq<char>> {
        views_of(self.state_stack@)
    }

    pub closed spec fn current_spec(&self) -> Seq<char> {
        self.current_state@
    }

    /// The ignorable pattern, as its pattern text.
    pub closed spec fn ignore_spec(&self) -> Option<Seq<char>> {
        match self.ignore_pattern {
            Some(p) => Some(p.pat()),
            None => None,
        }
    }

    /// The end-of-input token, as (kind, text).
    pub closed spec fn eof_spec(&self) -> Option<(Seq<char>, Seq<char>)> {
        match self.eof_token {
            Some((t, v)) => Some((t@, v@)),
            None => None,
        }
    }

    /// The registered lexical states.
    pub closed spec fn states_spec(&self) -> Seq<LexState> {
        self.states@
    }

    /// The engine's cursor is at or after the start of its line.
    pub open spec fn wf(&self) -> bool {
        self.line_offset_spec() <= self.offset_spec()
    }

    /// Whether this engine's cursor and lexical mode carry exactly the
    /// modelled data.
    pub open spec fn cursor_matches(&self, o: LexOutcome) -> bool {
        &&& self.offset_spec() as int == o.offset
        &&& self.line_spec() as int == o.line
        &&& self.line_offset_spec() as int == o.line_offset
        &&& self.is_eof_spec() == o.is_eof
        &&& self.stack_spec() == o.stack
        &&& self.current_spec() == o.current
    }

    /// Whether two engines share configuration and custom state.
    pub open spec fn same_config(&self, other: &Self) -> bool {
        &&& self.ignore_spec() == other.ignore_spec()
        &&& self.eof_spec() == other.eof_spec()
        &&& self.states_spec() == other.states_spec()
    }

    /// Where the cursor stands once the ignorable pattern has been skipped.
    pub open spec fn skip_target_spec(&self, src: Seq<char>) -> int {
        match self.ignore_spec() {
            None => self.offset_spec() as int,
            Some(p) => skip_spec(p, src, self.offset_spec() as int),
        }
    }

    /// The effect of a `next` call that hands out the end-of-input token,
    /// with the cursor left at `off`.
    pub open spec fn eof_outcome(&self, off: int) -> LexOutcome {
        LexOutcome {
            offset: off,
            line: self.line_spec() as int,
            line_offset: self.line_offset_spec() as int,
            is_eof: true,
            stack: self.stack_spec(),
            current: self.current_spec(),
            result: match self.eof_spec() {
                Some(e) => Ok(TokenModel { ty: e.0, text: e.1, loc: None }),
                None => Err(ParseError::PrematureEnd),
            },
        }
    }

    /// The effect of a `next` call on which `rule` matched first, with the
    /// cursor having skipped to `sk`.
    pub open spec fn match_outcome(&self, src: Seq<char>, sk: int, rule: LexRule) -> LexOutcome {
        let f = regex_find(rule.pattern_spec(), src.subrange(sk, src.len() as int))->0;
        let text = src.subrange(sk, src.len() as int).subrange(f.0, f.1);
        let fac = rule.factory_spec();
        let inc = match fac.off_spec() {
            Some(o) => o as int,
            None => f.1 - f.0,
        };
        let incl = match fac.lines_spec() {
            Some(l) => l as int,
            None => 0,
        };
        let off2 = sat_add_usize(sk, inc);
        let line2 = if incl != 0 {
            sat_add_usize(self.line_spec() as int, incl)
        } else {
            self.line_spec() as int
        };
        let lo2 = if incl != 0 {
            off2
        } else {
            self.line_offset_spec() as int
        };
        let sc = apply_ops(self.stack_spec(), self.current_spec(), fac.ops_spec(), 0);
        LexOutcome {
            offset: off2,
            line: line2,
            line_offset: lo2,
            is_eof: false,
            stack: sc.0,
            current: sc.1,
            result: Ok(
                TokenModel {
                    ty: fac.ty_spec(),
                    text,
                    loc: Some(
                        LocModel {
                            bline: self.line_spec() as int,
                            bcol: sk - self.line_offset_spec(),
                            eline: line2,
                            ecol: off2 - lo2,
                        },
                    ),
                },
            ),
        }
    }

    /// The full effect of one `next` call on this engine against `src`:
    /// either the end path (end flag already set, cursor at or past the end,
    /// or skipping reached the end), a lexical mismatch, or the first
    /// matching rule of the current state.
    pub open spec fn next_outcome(&self, src: Seq<char>) -> LexOutcome {
        if self.is_eof_spec() || self.offset_spec() >= src.len() {
            self.eof_outcome(self.offset_spec() as int)
        } else {
            let sk = self.skip_target_spec(src);
            if sk >= src.len() {
                self.eof_outcome(sk)
            } else {
                let rules = rules_for(self.states_spec(), self.current_spec());
                let suffix = src.subrange(sk, src.len() as int);
                match first_match(rules, suffix, 0) {
                    None => LexOutcome {
                        offset: sk,
                        line: self.line_spec() as int,
                        line_offset: self.line_offset_spec() as int,
                        is_eof: false,
                        stack: self.stack_spec(),
                        current: self.current_spec(),
                        result: Err(ParseError::LexicalMismatch),
                    },
                    Some(i) => self.match_outcome(src, sk, rules[i]),
                }
            }
        }
    }

    /// A fresh engine: cursor at the start, no configuration yet, the given
    /// state current.
    pub fn new(initial_status: &str, custom_state: S) -> (r: LexerState<S>)
        ensures
            r.wf(),
            r.custom_spec() == custom_state,
            r.offset_spec() == 0,
            r.line_spec() == 1,
            r.line_offset_spec() == 0,
            !r.is_eof_spec(),
            r.stack_spec() == Seq::<Seq<char>>::empty(),
            r.current_spec() == initial_status@,
            r.ignore_spec() is None,
            r.eof_spec() is None,
            r.states_spec() == Seq::<LexState>::empty(),
    {
        let r = LexerState {
            custom_state,
            offset: 0,
            line: 1,
            line_offset: 0,
            ignore_pattern: None,
            eof_token: None,
            is_eof: false,
            state_stack: Vec::new(),
            current_state: initial_status.to_owned(),
            states: Vec::new(),
        };
        proof {
            assert(r.stack_spec() =~= Seq::<Seq<char>>::empty());
        }
        r
    }

    /// Return the cursor to the start and drop the rules, the end token and
    /// the stack; the ignorable pattern is kept.
    pub fn reset(&mut self, initial_status: &str, custom_state: S)
        ensures
            final(self).wf(),
            final(self).custom_spec() == custom_state,
            final(self).offset_spec() == 0,
            final(self).line_spec() == 1,
            final(self).line_offset_spec() == 0,
            !final(self).is_eof_spec(),
            final(self).stack_spec() == Seq::<Seq<char>>::empty(),
            final(self).current_spec() == initial_status@,
            final(self).ignore_spec() == old(self).ignore_spec(),
            final(self).eof_spec() is None,
            final(self).states_spec() == Seq::<LexState>::empty(),
    {
        self.custom_state = custom_state;
        self.offset = 0;
        self.line = 1;
        self.line_offset = 0;
        self.eof_token = None;
        self.is_eof = false;
        self.state_stack = Vec::new();
        self.current_state = initial_status.to_owned();
        self.states = Vec::new();
        proof {
            assert(self.stack_spec() =~= Seq::<Seq<char>>::empty());
        }
    }

    pub fn get_custom_state(&self) -> (r: &S)
        ensures
            r == self.custom_spec(),
    {
        &self.custom_state
    }

    pub fn get_mut_custom_state(&mut self) -> (r: &mut S)
        ensures
            *r == old(self).custom_spec(),
            final(self).custom_spec() == *final(r),
            final(self).offset_spec() == old(self).offset_spec(),
            final(self).line_spec() == old(self).line_spec(),
            final(self).line_offset_spec() == old(self).line_offset_spec(),
            final(self).is_eof_spec() == old(self).is_eof_spec(),
            final(self).stack_spec() == old(self).stack_spec(),
            final(self).current_spec() == old(self).current_spec(),
            final(self).same_config(old(self)),
            final(self).wf() == old(self).wf(),
    {
        &mut self.custom_state
    }

    /// Capture the cursor, the lexical mode and the end flag.
    pub fn dump(&self) -> (r: LexerStateSnapshot)
        ensures
            r.offset_spec() == self.offset_spec(),
            r.line_spec() == self.line_spec(),
            r.line_offset_spec() == self.line_offset_spec(),
            r.is_eof_spec() == self.is_eof_spec(),
            r.token_snapshot_spec().stack_spec() == self.stack_spec(),
            r.token_snapshot_spec().current_spec() == self.current_spec(),
    {
        LexerStateSnapshot::new(
            self.offset,
            self.line,
            self.line_offset,
            self.is_eof,
            LexerTokenSnapshot::new(copy_strings(&self.state_stack), self.current_state.clone()),
        )
    }

    /// Restore a captured cursor, lexical mode and end flag, so that
    /// tokens replay identically from the captured position. All
    /// configuration and the custom state are untouched.
    pub fn restore(&mut self, snapshot: LexerStateSnapshot)
        requires
            snapshot.wf(),
        ensures
            final(self).wf(),
            final(self).custom_spec() == old(self).custom_spec(),
            final(self).same_config(old(self)),
            final(self).is_eof_spec() == snapshot.is_eof_spec(),
            final(self).offset_spec() == snapshot.offset_spec(),
            final(self).line_spec() == snapshot.line_spec(),
            final(self).line_offset_spec() == snapshot.line_offset_spec(),
            final(self).stack_spec() == snapshot.token_snapshot_spec().stack_spec(),
            final(self).current_spec() == snapshot.token_snapshot_spec().current_spec(),
    {
        let LexerStateSnapshot { offset, line, line_offset, is_eof, token_snapshot } = snapshot;
        let LexerTokenSnapshot { state_stack, current_state } = token_snapshot;
        self.offset = offset;
        self.line = line;
        self.line_offset = line_offset;
        self.is_eof = is_eof;
        self.state_stack = state_stack;
        self.current_state = current_state;
    }

    /// Set the ignorable pattern; an invalid pattern leaves the previous one
    /// in place.
    pub fn set_ignore(&mut self, re: &str)
        ensures
            final(self).custom_spec() == old(self).custom_spec(),
            final(self).offset_spec() == old(self).offset_spec(),
            final(self).line_spec() == old(self).line_spec(),
            final(self).line_offset_spec() == old(self).line_offset_spec(),
            final(self).is_eof_spec() == old(self).is_eof_spec(),
            final(self).stack_spec() == old(self).stack_spec(),
            final(self).current_spec() == old(self).current_spec(),
            final(self).eof_spec() == old(self).eof_spec(),
            final(self).states_spec() == old(self).states_spec(),
            final(self).wf() == old(self).wf(),
            regex_valid(re@) ==> final(self).ignore_spec() == Some(re@),
            !regex_valid(re@) ==> final(self).ignore_spec() == old(self).ignore_spec(),
    {
        match CompiledPattern::compile(re) {
            Some(p) => {
                self.ignore_pattern = Some(p);
            },
            None => {},
        }
    }

    /// Set the end-of-input token returned once the buffer is exhausted.
    pub fn set_eof(&mut self, token_type: &str, token_value: &str)
        ensures
            final(self).custom_spec() == old(self).custom_spec(),
            final(self).offset_spec() == old(self).offset_spec(),
            final(self).line_spec() == old(self).line_spec(),
            final(self).line_offset_spec() == old(self).line_offset_spec(),
            final(self).is_eof_spec() == old(self).is_eof_spec(),
            final(self).stack_spec() == old(self).stack_spec(),
            final(self).current_spec() == old(self).current_spec(),
            final(self).ignore_spec() == old(self).ignore_spec(),
            final(self).states_spec() == old(self).states_spec(),
            final(self).wf() == old(self).wf(),
            final(self).eof_spec() == Some((token_type@, token_value@)),
    {
        self.eof_token = Some((token_type.to_owned(), token_value.to_owned()));
    }

    /// Register one (pattern, factory) rule for a lexical state, creating
    /// the state's entry on first use. An invalid pattern registers nothing,
    /// though the state's entry is still created.
    pub fn add_token(&mut self, state: &str, re: &str, factory: TokenFactory)
        ensures
            final(self).custom_spec() == old(self).custom_spec(),
            final(self).offset_spec() == old(self).offset_spec(),
            final(self).line_spec() == old(self).line_spec(),
            final(self).line_offset_spec() == old(self).line_offset_spec(),
            final(self).is_eof_spec() == old(self).is_eof_spec(),
            final(self).stack_spec() == old(self).stack_spec(),
            final(self).current_spec() == old(self).current_spec(),
            final(self).ignore_spec() == old(self).ignore_spec(),
            final(self).eof_spec() == old(self).eof_spec(),
            final(self).wf() == old(self).wf(),
            (match find_state(old(self).states_spec(), state@, 0) {
                Some(i) => {
                    &&& final(self).states_spec().len() == old(self).states_spec().len()
                    &&& (forall|k: int|
                        0 <= k < old(self).states_spec().len() && k != i
                            ==> final(self).states_spec()[k] == old(self).states_spec()[k])
                    &&& final(self).states_spec()[i].name_spec()
                        == old(self).states_spec()[i].name_spec()
                    &&& rule_list_extended(
                        old(self).states_spec()[i].rules_spec(),
                        final(self).states_spec()[i].rules_spec(),
                        re@,
                        factory,
                    )
                },
                None => {
                    &&& final(self).states_spec().len() == old(self).states_spec().len() + 1
                    &&& final(self).states_spec().drop_last() == old(self).states_spec()
                    &&& final(self).states_spec().last().name_spec() == state@
                    &&& rule_list_extended(
                        Seq::<LexRule>::empty(),
                        final(self).states_spec().last().rules_spec(),
                        re@,
                        factory,
                    )
                },
            }),
    {
        let state_name = state.to_owned();
        let n_states = self.states.len();
        let mut si: usize = 0;
        while si < n_states
            invariant
                0 <= si <= n_states,
                n_states == self.states@.len(),
                state_name@ == state@,
                find_state(self.states@, state@, 0) == find_state(self.states@, state@, si as int),
            ensures
                0 <= si <= n_states,
                n_states == self.states@.len(),
                si < n_states ==> find_state(self.states@, state@, 0) == Some(si as int),
                si == n_states ==> find_state(self.states@, state@, 0) is None,
            decreases n_states - si,
        {
            if self.states[si].name == state_name {
                break ;
            }
            si = si + 1;
        }
        let ghost was_new = si == n_states;
        if si == n_states {
            self.states.push(LexState { name: state.to_owned(), rules: Vec::new() });
            proof {
                assert(self.states@.drop_last() =~= old(self).states@);
            }
        }
        let ghost mid = self.states@;
        match CompiledPattern::compile(re) {
            Some(pattern) => {
                let rule = LexRule { pattern, factory };
                let removed = self.states.remove(si);
                let LexState { name, mut rules } = removed;
                let ghost pre_rules = rules@;
                rules.push(rule);
                self.states.insert(si, LexState { name, rules });
                proof {
                    assert(self.states@ =~= mid.update(si as int, self.states@[si as int]));
                    assert(self.states@[si as int].rules_spec().drop_last() =~= pre_rules);
                    assert(self.states@[si as int].name_spec() == mid[si as int].name_spec());
                    if was_new {
                        assert(self.states@.drop_last() =~= old(self).states@);
                        assert(pre_rules =~= Seq::<LexRule>::empty());
                    }
                }
            },
            None => {},
        }
    }

    /// The position of the cursor: its line, and its column within the line.
    fn get_current_position(&self) -> (r: Position)
        requires
            self.wf(),
        ensures
            r.line_spec() == self.line_spec(),
            r.column_spec() as int == self.offset_spec() - self.line_offset_spec(),
    {
        Position::new(self.line, self.offset - self.line_offset)
    }

    /// Set the end flag and hand out the configured end token.
    fn next_eof(&mut self) -> (r: Result<Token, ParseError>)
        ensures
            final(self).custom_spec() == old(self).custom_spec(),
            final(self).offset_spec() == old(self).offset_spec(),
            final(self).line_spec() == old(self).line_spec(),
            final(self).line_offset_spec() == old(self).line_offset_spec(),
            final(self).is_eof_spec(),
            final(self).stack_spec() == old(self).stack_spec(),
            final(self).current_spec() == old(self).current_spec(),
            final(self).same_config(old(self)),
            final(self).wf() == old(self).wf(),
            (match old(self).eof_spec() {
                Some(e) => r matches Ok(t) && t.ty() == e.0 && t.text() == e.1 && t.loc() is None,
                None => r == Err::<Token, ParseError>(ParseError::PrematureEnd),
            }),
    {
        self.is_eof = true;
        match &self.eof_token {
            Some((t, v)) => Ok(Token::new(t.as_str(), v.as_str())),
            None => Err(ParseError::PrematureEnd),
        }
    }

    /// Skip the longest run of ignorable matches; reports whether the
    /// cursor then stands at the end of the buffer. A zero-length ignorable
    /// match cannot advance the cursor and stops the skipping.
    fn skip_ignore(&mut self, src: &str, src_len: usize) -> (r: bool)
        requires
            old(self).wf(),
            src_len == src@.len(),
            old(self).offset_spec() <= src_len,
        ensures
            final(self).wf(),
            final(self).custom_spec() == old(self).custom_spec(),
            final(self).line_spec() == old(self).line_spec(),
            final(self).line_offset_spec() == old(self).line_offset_spec(),
            final(self).is_eof_spec() == old(self).is_eof_spec(),
            final(self).stack_spec() == old(self).stack_spec(),
            final(self).current_spec() == old(self).current_spec(),
            final(self).same_config(old(self)),
            old(self).offset_spec() <= final(self).offset_spec() <= src_len,
            final(self).offset_spec() as int == old(self).skip_target_spec(src@),
            r == (final(self).offset_spec() >= src_len),
    {
        if self.ignore_pattern.is_none() {
            return self.offset >= src_len;
        }
        loop
            invariant
                self.wf(),
                src_len == src@.len(),
                old(self).offset_spec() <= self.offset_spec() <= src_len,
                self.ignore_spec() is Some,
                self.ignore_spec() == old(self).ignore_spec(),
                self.custom_spec() == old(self).custom_spec(),
                self.line_spec() == old(self).line_spec(),
                self.line_offset_spec() == old(self).line_offset_spec(),
                self.is_eof_spec() == old(self).is_eof_spec(),
                self.stack_spec() == old(self).stack_spec(),
                self.current_spec() == old(self).current_spec(),
                self.same_config(old(self)),
                self.eof_token == old(self).eof_token,
                self.ignore_pattern == old(self).ignore_pattern,
                self.states == old(self).states,
                skip_spec(self.ignore_spec()->0, src@, old(self).offset_spec() as int) == skip_spec(
                    self.ignore_spec()->0,
                    src@,
                    self.offset_spec() as int,
                ),
            ensures
                self.offset_spec() as int == skip_spec(
                    self.ignore_spec()->0,
                    src@,
                    old(self).offset_spec() as int,
                ),
            decreases src_len - self.offset_spec(),
        {
            let suffix = src.substring_char(self.offset, src_len);
            let found = match &self.ignore_pattern {
                Some(p) => p.find(suffix),
                None => None,
            };
            match found {
                None => {
                    break ;
                },
                Some((_pre, mat)) => {
                    let l = mat.as_str().unicode_len();
                    proof {
                        assert(suffix@ == src@.subrange(
                            self.offset_spec() as int,
                            src@.len() as int,
                        ));
                    }
                    if l == 0 {
                        break ;
                    }
                    self.offset = self.offset + l;
                },
            }
        }
        self.offset >= src_len
    }

    /// Apply the given number of pops to the state stack.
    fn pop_states(&mut self, times: usize)
        ensures
            final(self).custom_spec() == old(self).custom_spec(),
            final(self).offset_spec() == old(self).offset_spec(),
            final(self).line_spec() == old(self).line_spec(),
            final(self).line_offset_spec() == old(self).line_offset_spec(),
            final(self).is_eof_spec() == old(self).is_eof_spec(),
            final(self).same_config(old(self)),
            final(self).wf() == old(self).wf(),
            (final(self).stack_spec(), final(self).current_spec()) == apply_pop(
                old(self).stack_spec(),
                old(self).current_spec(),
                times as int,
            ),
    {
        let mut j: usize = 0;
        while j < times
            invariant
                j <= times,
                self.custom_spec() == old(self).custom_spec(),
                self.offset_spec() == old(self).offset_spec(),
                self.line_spec() == old(self).line_spec(),
                self.line_offset_spec() == old(self).line_offset_spec(),
                self.is_eof_spec() == old(self).is_eof_spec(),
                self.same_config(old(self)),
                self.eof_token == old(self).eof_token,
                self.ignore_pattern == old(self).ignore_pattern,
                self.states == old(self).states,
                apply_pop(self.stack_spec(), self.current_spec(), (times - j) as int) == apply_pop(
                    old(self).stack_spec(),
                    old(self).current_spec(),
                    times as int,
                ),
            decreases times - j,
        {
            let ghost pre_stack = self.stack_spec();
            let ghost pre_cur = self.current_spec();
            match self.state_stack.pop() {
                Some(s) => {
                    self.current_state = s;
                    proof {
                        assert(pre_stack.len() > 0);
                        assert(views_of(self.state_stack@) =~= pre_stack.drop_last());
                        assert(self.current_spec() == pre_stack.last());
                    }
                },
                None => {
                    proof {
                        assert(pre_stack.len() == 0);
                    }
                    return ;
                },
            }
            j = j + 1;
        }
    }

    /// Apply one stack operation.
    fn change_state(&mut self, op: &NextStateChange)
        ensures
            final(self).custom_spec() == old(self).custom_spec(),
            final(self).offset_spec() == old(self).offset_spec(),
            final(self).line_spec() == old(self).line_spec(),
            final(self).line_offset_spec() == old(self).line_offset_spec(),
            final(self).is_eof_spec() == old(self).is_eof_spec(),
            final(self).same_config(old(self)),
            final(self).wf() == old(self).wf(),
            (final(self).stack_spec(), final(self).current_spec()) == apply_op(
                old(self).stack_spec(),
                old(self).current_spec(),
                *op,
            ),
    {
        match op {
            NextStateChange::Push(s) => {
                let prev = self.current_state.clone();
                self.state_stack.push(prev);
                self.current_state = s.clone();
                proof {
                    assert(views_of(self.state_stack@) =~= old(self).stack_spec().push(
                        old(self).current_spec(),
                    ));
                }
            },
            NextStateChange::Pop(times) => {
                self.pop_states(*times);
            },
        }
    }

    /// Advance the cursor and the stack as one match's state change says.
    fn state_change(&mut self, change: &StateChange)
        requires
            old(self).wf(),
        ensures
            final(self).wf(),
            final(self).custom_spec() == old(self).custom_spec(),
            final(self).is_eof_spec() == old(self).is_eof_spec(),
            final(self).same_config(old(self)),
            final(self).offset_spec() as int == sat_add_usize(
                old(self).offset_spec() as int,
                change.inc_offset_spec() as int,
            ),
            change.inc_lines_spec() != 0 ==> final(self).line_spec() as int == sat_add_usize(
                old(self).line_spec() as int,
                change.inc_lines_spec() as int,
            ) && final(self).line_offset_spec() == final(self).offset_spec(),
            change.inc_lines_spec() == 0 ==> final(self).line_spec() == old(self).line_spec()
                && final(self).line_offset_spec() == old(self).line_offset_spec(),
            (final(self).stack_spec(), final(self).current_spec()) == apply_ops(
                old(self).stack_spec(),
                old(self).current_spec(),
                change.ops_spec(),
                0,
            ),
    {
        self.offset = sat_add(self.offset, change.get_increment_offset());
        if change.get_increment_lines() != 0 {
            self.line = sat_add(self.line, change.get_increment_lines());
            self.line_offset = self.offset;
        }
        let ops = change.get_next_state();
        let n_ops = ops.len();
        let mut i: usize = 0;
        while i < n_ops
            invariant
                i <= n_ops,
                n_ops == change.ops_spec().len(),
                ops@ == change.ops_spec(),
                self.wf(),
                self.custom_spec() == old(self).custom_spec(),
                self.is_eof_spec() == old(self).is_eof_spec(),
                self.same_config(old(self)),
                self.offset_spec() as int == sat_add_usize(
                    old(self).offset_spec() as int,
                    change.inc_offset_spec() as int,
                ),
                change.inc_lines_spec() != 0 ==> self.line_spec() as int == sat_add_usize(
                    old(self).line_spec() as int,
                    change.inc_lines_spec() as int,
                ) && self.line_offset_spec() == self.offset_spec(),
                change.inc_lines_spec() == 0 ==> self.line_spec() == old(self).line_spec()
                    && self.line_offset_spec() == old(self).line_offset_spec(),
                apply_ops(self.stack_spec(), self.current_spec(), change.ops_spec(), i as int)
                    == apply_ops(
                    old(self).stack_spec(),
                    old(self).current_spec(),
                    change.ops_spec(),
                    0,
                ),
            decreases n_ops - i,
        {
            self.change_state(&ops[i]);
            i = i + 1;
        }
    }

    /// Yield one token. Before scanning, the ignorable pattern is skipped;
    /// at the end of the buffer (or once the end flag is set) the end token
    /// is handed out on every further call; otherwise the current state's
    /// rules are tried in registration order and the first match's factory
    /// builds the token, stamped with the positions around the advance.
    pub fn next(&mut self, src: &str) -> (r: Result<Token, ParseError>)
        requires
            old(self).wf(),
        ensures
            final(self).wf(),
            final(self).custom_spec() == old(self).custom_spec(),
            final(self).same_config(old(self)),
            final(self).offset_spec() >= old(self).offset_spec(),
            ({
                let o = old(self).next_outcome(src@);
                &&& final(self).offset_spec() as int == o.offset
                &&& final(self).line_spec() as int == o.line
                &&& final(self).line_offset_spec() as int == o.line_offset
                &&& final(self).is_eof_spec() == o.is_eof
                &&& final(self).stack_spec() == o.stack
                &&& final(self).current_spec() == o.current
                &&& result_fits(r, o.result)
            }),
    {
        if self.is_eof {
            return self.next_eof();
        }
        let src_len = src.unicode_len();
        if self.offset >= src_len {
            return self.next_eof();
        }
        let reached_end = self.skip_ignore(src, src_len);
        if reached_end {
            return self.next_eof();
        }
        let begin = self.get_current_position();
        let suffix = src.substring_char(self.offset, src_len);
        proof {
            assert(suffix@ == src@.subrange(self.offset_spec() as int, src@.len() as int));
        }
        let n_states = self.states.len();
        let mut si: usize = 0;
        while si < n_states
            invariant
                0 <= si <= n_states,
                n_states == self.states@.len(),
                find_state(self.states@, self.current_spec(), 0) == find_state(
                    self.states@,
                    self.current_spec(),
                    si as int,
                ),
            ensures
                0 <= si <= n_states,
                n_states == self.states@.len(),
                si < n_states ==> find_state(self.states@, self.current_spec(), 0) == Some(
                    si as int,
                ),
                si == n_states ==> find_state(self.states@, self.current_spec(), 0) is None,
            decreases n_states - si,
        {
            if self.states[si].name == self.current_state {
                break ;
            }
            si = si + 1;
        }
        if si == n_states {
            proof {
                assert(rules_for(self.states@, self.current_spec()) =~= Seq::<LexRule>::empty());
            }
            return Err(ParseError::LexicalMismatch);
        }
        let ghost rules = rules_for(self.states@, self.current_spec());
        let n_rules = self.states[si].rules.len();
        let mut ri: usize = 0;
        let mut matched: Option<String> = None;
        while ri < n_rules
            invariant_except_break
                matched is None,
            invariant
                0 <= ri <= n_rules,
                si < self.states@.len(),
                rules == self.states@[si as int].rules_spec(),
                n_rules == rules.len(),
                first_match(rules, suffix@, 0) == first_match(rules, suffix@, ri as int),
            ensures
                0 <= ri <= n_rules,
                si < self.states@.len(),
                rules == self.states@[si as int].rules_spec(),
                (match matched {
                    None => first_match(rules, suffix@, 0) is None && ri == n_rules,
                    Some(mat) => {
                        &&& first_match(rules, suffix@, 0) == Some(ri as int)
                        &&& ri < n_rules
                        &&& regex_find(rules[ri as int].pattern_spec(), suffix@) matches Some(f)
                            && 0 <= f.0 <= f.1 <= suffix@.len() && mat@ == suffix@.subrange(
                            f.0,
                            f.1,
                        )
                    },
                }),
            decreases n_rules - ri,
        {
            match self.states[si].rules[ri].pattern.find(suffix) {
                Some((_pre, mat)) => {
                    matched = Some(mat);
                    break ;
                },
                None => {},
            }
            ri = ri + 1;
        }
        match matched {
            None => Err(ParseError::LexicalMismatch),
            Some(mat) => {
                let (mut token, change) = self.states[si].rules[ri].factory.build(mat.as_str());
                self.state_change(&change);
                let end = self.get_current_position();
                token.set_location(begin, end);
                Ok(token)
            },
        }
    }
}

/// Reaching the end of input is idempotent: once the end flag is set, a
/// `next` call yields the configured end token again (or the same failure
/// when none is configured), moves nothing, and keeps the flag set — so
/// every further call repeats the same outcome.
pub proof fn lemma_end_of_input_idempotent<S>(l: LexerState<S>, src: Seq<char>)
    requires
        l.is_eof_spec(),
    ensures
        ({
            let o = l.next_outcome(src);
            &&& o.is_eof
            &&& o.offset == l.offset_spec() as int
            &&& o.line == l.line_spec() as int
            &&& o.line_offset == l.line_offset_spec() as int
            &&& o.stack == l.stack_spec()
            &&& o.current == l.current_spec()
            &&& (match l.eof_spec() {
                Some(e) => o.result matches Ok(t) && t.ty == e.0 && t.text == e.1
                    && t.loc is None,
                None => o.result == Err::<TokenModel, ParseError>(ParseError::PrematureEnd),
            })
        }),
{
}

/// One token of a trace, as plain data: its kind and its text.
pub ghost struct TokView {
    pub ty: Seq<char>,
    pub text: Seq<char>,
}

/// Whether one `next` call on `l0` against `src` yields a token with
/// `t`'s kind and text and leaves the engine in `l1`.
pub open spec fn step_ok<S>(
    l0: LexerState<S>,
    src: Seq<char>,
    t: TokView,
    l1: LexerState<S>,
) -> bool {
    let o = l0.next_outcome(src);
    &&& l1.same_config(&l0)
    &&& l1.custom_spec() == l0.custom_spec()
    &&& l1.cursor_matches(o)
    &&& (o.result matches Ok(tm) && tm.ty == t.ty && tm.text == t.text)
}

/// Whether one `next` call on `l0` against `src` fails with `e` and leaves
/// the engine in `l1`.
pub open spec fn step_err<S>(
    l0: LexerState<S>,
    src: Seq<char>,
    e: ParseError,
    l1: LexerState<S>,
) -> bool {
    let o = l0.next_outcome(src);
    &&& l1.same_config(&l0)
    &&& l1.custom_spec() == l0.custom_spec()
    &&& l1.cursor_matches(o)
    &&& o.result == Err::<TokenModel, ParseError>(e)
}

/// Whether successive `next` calls on `l0` against `src` yield exactly the
/// tokens of `ts` and leave the engine in `l1`.
pub open spec fn lex_steps<S>(
    l0: LexerState<S>,
    src: Seq<char>,
    ts: Seq<TokView>,
    l1: LexerState<S>,
) -> bool
    decreases ts.len(),
{
    if ts.len() == 0 {
        l1 == l0
    } else {
        exists|m: LexerState<S>|
            #[trigger] step_ok(l0, src, ts[0], m) && lex_steps(m, src, ts.drop_first(), l1)
    }
}

/// A trace extends by one token at the front.
pub proof fn lemma_lex_steps_cons<S>(
    l0: LexerState<S>,
    src: Seq<char>,
    t: TokView,
    l1: LexerState<S>,
    ts: Seq<TokView>,
    l2: LexerState<S>,
)
    requires
        step_ok(l0, src, t, l1),
        lex_steps(l1, src, ts, l2),
    ensures
        lex_steps(l0, src, seq![t] + ts, l2),
{
    let whole = seq![t] + ts;
    assert(whole[0] == t);
    assert(whole.drop_first() =~= ts);
    assert(step_ok(l0, src, whole[0], l1));
}

/// Traces concatenate.
pub proof fn lemma_lex_steps_concat<S>(
    l0: LexerState<S>,
    src: Seq<char>,
    ts1: Seq<TokView>,
    mid: LexerState<S>,
    ts2: Seq<TokView>,
    l1: LexerState<S>,
)
    requires
        lex_steps(l0, src, ts1, mid),
        lex_steps(mid, src, ts2, l1),
    ensures
        lex_steps(l0, src, ts1 + ts2, l1),
    decreases ts1.len(),
{
    if ts1.len() == 0 {
        assert(ts1 + ts2 =~= ts2);
    } else {
        let m = choose|m: LexerState<S>|
            #[trigger] step_ok(l0, src, ts1[0], m) && lex_steps(m, src, ts1.drop_first(), mid);
        lemma_lex_steps_concat(m, src, ts1.drop_first(), mid, ts2, l1);
        let whole = ts1 + ts2;
        assert(whole[0] == ts1[0]);
        assert(whole.drop_first() =~= ts1.drop_first() + ts2);
        assert(step_ok(l0, src, whole[0], m));
    }
}

/// Whether `after` is `before` plus one rule for pattern `re` and factory
/// `factory` — or `before` unchanged, when `re` is not a valid pattern.
pub open spec fn rule_list_extended(
    before: Seq<LexRule>,
    after: Seq<LexRule>,
    re: Seq<char>,
    factory: TokenFactory,
) -> bool {
    if regex_valid(re) {
        &&& after.len() == before.len() + 1
        &&& after.drop_last() == before
        &&& after.last().pattern_spec() == re
        &&& after.last().factory_spec() == factory
    } else {
        after == before
    }
}

} // verus!
