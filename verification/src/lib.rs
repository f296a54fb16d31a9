//! A verified interpreter for a small textual Turing-machine language.
//!
//! A machine description is a flat list of transition rules, five
//! whitespace-delimited tokens each: `STATE READ WRITE STEP NEXT`, with
//! `STEP` one of `L` or `R`. The interpreter tokenizes the source text,
//! parses the rule table (and, optionally, an initial tape), then steps a
//! machine until no rule matches, rendering the configuration before each
//! step. Rule lookup is a linear first-match scan in file order; the
//! tie-break in favour of the earliest rule is part of the language.

pub mod lexer;
pub mod machine;
pub mod parser;
pub mod render;
pub mod rules;
pub mod symbol;
