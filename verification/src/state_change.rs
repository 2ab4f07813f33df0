//! What a token factory tells the tokenizer engine to do after a match:
//! how far to advance the cursor, how many lines were crossed, and which
//! push/pop operations to apply to the lexical-state stack.

use vstd::prelude::*;

verus! {

/// One operation on the lexical-state stack.
pub enum NextStateChange {
    /// Remember the current state and make the named state current.
    Push(String),
    /// Restore the n-th most recently remembered state, discarding the
    /// intermediate ones. Popping past the bottom is a no-op.
    Pop(usize),
}

impl NextStateChange {
    /// A value-identical copy of this operation.
    pub fn duplicate(&self) -> (r: NextStateChange)
        ensures
            r == *self,
    {
        match self {
            NextStateChange::Push(state) => NextStateChange::Push(state.clone()),
            NextStateChange::Pop(times) => NextStateChange::Pop(*times),
        }
    }
}

/// A value-identical copy of a list of stack operations.
pub fn duplicate_changes(ops: &Vec<NextStateChange>) -> (r: Vec<NextStateChange>)
    ensures
        r@ == ops@,
{
    let ops_len = ops.len();
    let mut r: Vec<NextStateChange> = Vec::new();
    let mut i: usize = 0;
    while i < ops_len
        invariant
            i <= ops_len,
            ops_len == ops@.len(),
            r@.len() == i,
            forall|k: int| 0 <= k < i ==> r@[k] == ops@[k],
        decreases ops_len - i,
    {
        r.push(ops[i].duplicate());
        i = i + 1;
    }
    proof {
        assert(r@ =~= ops@);
    }
    r
}

/// The full advancement a token factory reports for one match: a cursor
/// increment, a line increment, and the stack operations to apply in order.
pub struct StateChange {
    increment_offset: usize,
    increment_lines: usize,
    next_state: Vec<NextStateChange>,
}

impl StateChange {
    /// How many characters the cursor advances.
    pub closed spec fn inc_offset_spec(&self) -> usize {
        self.increment_offset
    }

    /// How many lines the cursor crosses.
    pub closed spec fn inc_lines_spec(&self) -> usize {
        self.increment_lines
    }

    /// The stack operations, in application order.
    pub closed spec fn ops_spec(&self) -> Seq<NextStateChange> {
        self.next_state@
    }

    pub fn new(increment_offset: usize, increment_lines: usize, next_state: Vec<
        NextStateChange,
    >) -> (r: StateChange)
        ensures
            r.inc_offset_spec() == increment_offset,
            r.inc_lines_spec() == increment_lines,
            r.ops_spec() == next_state@,
    {
        StateChange { increment_offset, increment_lines, next_state }
    }

    pub fn get_increment_offset(&self) -> (r: usize)
        ensures
            r == self.inc_offset_spec(),
    {
        self.increment_offset
    }

    pub fn get_increment_lines(&self) -> (r: usize)
        ensures
            r == self.inc_lines_spec(),
    {
        self.increment_lines
    }

    pub fn get_next_state(&self) -> (r: &Vec<NextStateChange>)
        ensures
            r@ == self.ops_spec(),
    {
        &self.next_state
    }
}

} // verus!
