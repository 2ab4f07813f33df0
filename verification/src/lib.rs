//! A small parser-generator core: a configurable, stateful tokenizer engine
//! driven by regular expressions, a recursive-descent compiler that turns an
//! ABNF-like notation into an in-memory grammar model, and a tree-walking
//! interpreter that replays a compiled grammar against a token source.

pub mod abnf_lexer;
pub mod assemble;
pub mod definition;
pub mod errors;
pub mod grammar;
pub mod grammar_parser;
pub mod increment_offset;
pub mod lexer_state;
pub mod pattern;
pub mod rule;
pub mod rules;
pub mod state_change;
pub mod token_factory;
pub mod location;
pub mod position;
pub mod token;

pub use definition::{BnfDefinition, RepeatTimes};
pub use errors::ParseError;
pub use grammar::GrammarTreeNode;
pub use grammar_parser::{GrammarParser, TokenSource};
pub use increment_offset::IncrementOffset;
pub use lexer_state::{LexerState, LexerStateSnapshot, LexerTokenSnapshot};
pub use pattern::CompiledPattern;
pub use rule::AbnfRule;
pub use rules::AbnfRules;
pub use state_change::{NextStateChange, StateChange};
pub use token_factory::TokenFactory;
pub use location::Location;
pub use position::Position;
pub use token::Token;
