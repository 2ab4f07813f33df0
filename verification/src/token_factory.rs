//! A declarative token factory: the data from which a token and its
//! accompanying state change are built when a pattern matches.

use vstd::prelude::*;
use crate::state_change::{duplicate_changes, NextStateChange, StateChange};
use crate::token::Token;

verus! {

/// Builds a token of a fixed kind from the matched text. Unless overridden,
/// the cursor advances by the length of the matched text and crosses no
/// line. Stack operations accumulate in the order they were requested.
///
/// A factory is declarative data, not a callback: it neither receives the
/// engine's custom state value nor can it choose its kind or operations by
/// the matched text. The custom state stays on the engine, owned by and
/// read back through its accessors.
pub struct TokenFactory {
    token_type: String,
    increment_offset: Option<usize>,
    increment_lines: Option<usize>,
    next_state: Vec<NextStateChange>,
}

impl TokenFactory {
    /// The kind of the tokens this factory builds.
    pub closed spec fn ty_spec(&self) -> Seq<char> {
        self.token_type@
    }

    /// The cursor-advance override, if any.
    pub closed spec fn off_spec(&self) -> Option<usize> {
        self.increment_offset
    }

    /// The line-advance override, if any.
    pub closed spec fn lines_spec(&self) -> Option<usize> {
        self.increment_lines
    }

    /// The accumulated stack operations, in order.
    pub closed spec fn ops_spec(&self) -> Seq<NextStateChange> {
        self.next_state@
    }

    pub fn new(token_type: &str) -> (r: TokenFactory)
        ensures
            r.ty_spec() == token_type@,
            r.off_spec() is None,
            r.lines_spec() is None,
            r.ops_spec() == Seq::<NextStateChange>::empty(),
    {
        TokenFactory {
            token_type: token_type.to_owned(),
            increment_offset: None,
            increment_lines: None,
            next_state: Vec::new(),
        }
    }

    /// Override the cursor advance of the built tokens.
    pub fn offset(self, offset: usize) -> (r: TokenFactory)
        ensures
            r.ty_spec() == self.ty_spec(),
            r.off_spec() == Some(offset),
            r.lines_spec() == self.lines_spec(),
            r.ops_spec() == self.ops_spec(),
    {
        TokenFactory { increment_offset: Some(offset), ..self }
    }

    /// Override the line advance of the built tokens.
    pub fn lines(self, lines: usize) -> (r: TokenFactory)
        ensures
            r.ty_spec() == self.ty_spec(),
            r.off_spec() == self.off_spec(),
            r.lines_spec() == Some(lines),
            r.ops_spec() == self.ops_spec(),
    {
        TokenFactory { increment_lines: Some(lines), ..self }
    }

    /// Append a push of the named lexical state.
    pub fn push_state(self, state: &str) -> (r: TokenFactory)
        ensures
            r.ty_spec() == self.ty_spec(),
            r.off_spec() == self.off_spec(),
            r.lines_spec() == self.lines_spec(),
            r.ops_spec().len() == self.ops_spec().len() + 1,
            r.ops_spec().drop_last() == self.ops_spec(),
            r.ops_spec().last() matches NextStateChange::Push(s) && s@ == state@,
    {
        let TokenFactory { token_type, increment_offset, increment_lines, mut next_state } = self;
        next_state.push(NextStateChange::Push(state.to_owned()));
        TokenFactory { token_type, increment_offset, increment_lines, next_state }
    }

    /// Append a pop of the given number of remembered lexical states.
    pub fn pop_state(self, times: usize) -> (r: TokenFactory)
        ensures
            r.ty_spec() == self.ty_spec(),
            r.off_spec() == self.off_spec(),
            r.lines_spec() == self.lines_spec(),
            r.ops_spec() == self.ops_spec().push(NextStateChange::Pop(times)),
    {
        let TokenFactory { token_type, increment_offset, increment_lines, mut next_state } = self;
        next_state.push(NextStateChange::Pop(times));
        TokenFactory { token_type, increment_offset, increment_lines, next_state }
    }

    /// Build a token carrying the matched text, together with the state
    /// change this factory reports: the overridden advances (defaulting to
    /// the matched length and zero lines) and the accumulated operations.
    pub fn build(&self, token: &str) -> (r: (Token, StateChange))
        ensures
            r.0.ty() == self.ty_spec(),
            r.0.text() == token@,
            r.0.loc() is None,
            r.1.inc_offset_spec() as int == (match self.off_spec() {
                Some(o) => o as int,
                None => token@.len() as int,
            }),
            r.1.inc_lines_spec() as int == (match self.lines_spec() {
                Some(l) => l as int,
                None => 0,
            }),
            r.1.ops_spec() == self.ops_spec(),
    {
        let increment_offset = match self.increment_offset {
            Some(o) => o,
            None => token.unicode_len(),
        };
        let increment_lines = match self.increment_lines {
            Some(l) => l,
            None => 0,
        };
        (
            Token::new(self.token_type.as_str(), token),
            StateChange::new(increment_offset, increment_lines, duplicate_changes(&self.next_state)),
        )
    }
}

} // verus!
