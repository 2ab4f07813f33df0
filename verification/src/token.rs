//! A classified, located fragment of source text.

use vstd::prelude::*;
use crate::location::Location;
use crate::position::Position;

verus! {

/// A token: a kind tag, the raw matched text, and an optional source span.
/// Immutable after creation except for location attachment.
pub struct Token {
    token_type: String,
    token_value: String,
    token_location: Option<Location>,
}

impl Token {
    /// The kind tag of this token.
    pub closed spec fn ty(&self) -> Seq<char> {
        self.token_type@
    }

    /// The raw matched text of this token.
    pub closed spec fn text(&self) -> Seq<char> {
        self.token_value@
    }

    /// The span attached to this token, if any.
    pub closed spec fn loc(&self) -> Option<Location> {
        self.token_location
    }

    pub fn new(token_type: &str, token_value: &str) -> (r: Token)
        ensures
            r.ty() == token_type@,
            r.text() == token_value@,
            r.loc() is None,
    {
        Token {
            token_type: token_type.to_owned(),
            token_value: token_value.to_owned(),
            token_location: None,
        }
    }

    pub fn set_location(&mut self, begin_position: Position, end_position: Position)
        ensures
            final(self).ty() == old(self).ty(),
            final(self).text() == old(self).text(),
            final(self).loc() is Some,
            final(self).loc()->0.begin_spec() == begin_position,
            final(self).loc()->0.end_spec() == end_position,
    {
        self.token_location = Some(Location::new(begin_position, end_position));
    }

    pub fn get_type(&self) -> (r: &str)
        ensures
            r@ == self.ty(),
    {
        self.token_type.as_str()
    }

    pub fn get_value(&self) -> (r: &str)
        ensures
            r@ == self.text(),
    {
        self.token_value.as_str()
    }

    /// The attached span, or a zero span when none was attached.
    pub fn get_location(&self) -> (r: Location)
        ensures
            self.loc() is Some ==> r == self.loc()->0,
            self.loc() is None ==> r.begin_spec().line_spec() == 0
                && r.begin_spec().column_spec() == 0 && r.end_spec().line_spec() == 0
                && r.end_spec().column_spec() == 0,
    {
        match self.token_location {
            Some(loc) => loc,
            None => Location::new(Position::new_zero(), Position::new_zero()),
        }
    }

    /// A value-identical copy of this token.
    pub fn duplicate(&self) -> (r: Token)
        ensures
            r.ty() == self.ty(),
            r.text() == self.text(),
            r.loc() == self.loc(),
    {
        Token {
            token_type: self.token_type.clone(),
            token_value: self.token_value.clone(),
            token_location: self.token_location,
        }
    }
}

} // verus!
