//! The parser: consumes the token stream and builds the rule table and,
//! in the external-tape variant, the initial tape.
//!
//! A rule is five tokens in fixed input order: state, read, write, step,
//! next (the step token comes fourth on the line, though the record lists
//! `next` before `step`). Parsing is strict: the first malformed token
//! aborts the whole parse with the first error met.

use vstd::prelude::*;

use crate::lexer::Lexer;
use crate::rules::{Rule, RuleV, Step};
use crate::symbol::Symbol;

verus! {

/// A parse failure: either the input ended where a token was owed, or a
/// step token was neither `L` nor `R`.
#[derive(Debug)]
pub enum ParseError {
    UnexpectedEof,
    InvalidStep { found: Symbol },
}

/// The mathematical image of a parse failure.
pub ghost enum ParseErrorV {
    UnexpectedEof,
    InvalidStep(Seq<char>),
}

impl View for ParseError {
    type V = ParseErrorV;

    open spec fn view(&self) -> ParseErrorV {
        match self {
            ParseError::UnexpectedEof => ParseErrorV::UnexpectedEof,
            ParseError::InvalidStep { found } => ParseErrorV::InvalidStep(found@),
        }
    }
}

/// What a step token means: `L` is left, `R` is right, anything else is
/// an invalid step.
pub open spec fn step_of_token(token: Seq<char>) -> Result<Step, ParseErrorV> {
    if token == "L"@ {
        Ok(Step::Left)
    } else if token == "R"@ {
        Ok(Step::Right)
    } else {
        Err(ParseErrorV::InvalidStep(token))
    }
}

/// What the first five tokens of `tokens` parse to as a rule. The step
/// token is judged as soon as it is read, so a bad step on a final,
/// truncated rule is reported as an invalid step, not as an early end.
pub open spec fn rule_of_tokens(tokens: Seq<Seq<char>>) -> Result<RuleV, ParseErrorV> {
    if tokens.len() < 4 {
        Err(ParseErrorV::UnexpectedEof)
    } else {
        match step_of_token(tokens[3]) {
            Err(e) => Err(e),
            Ok(step) => {
                if tokens.len() < 5 {
                    Err(ParseErrorV::UnexpectedEof)
                } else {
                    Ok(
                        RuleV {
                            state: tokens[0],
                            read: tokens[1],
                            write: tokens[2],
                            next: tokens[4],
                            step,
                        },
                    )
                }
            },
        }
    }
}

/// What a whole token stream parses to as a rule table: rules in input
/// order, five tokens each, until the input is exhausted; the first
/// failure aborts the parse.
pub open spec fn rules_of_tokens(tokens: Seq<Seq<char>>) -> Result<Seq<RuleV>, ParseErrorV>
    decreases tokens.len(),
{
    if tokens.len() == 0 {
        Ok(seq![])
    } else {
        match rule_of_tokens(tokens) {
            Err(e) => Err(e),
            Ok(rule) => match rules_of_tokens(tokens.skip(5)) {
                Err(e) => Err(e),
                Ok(rest) => Ok(seq![rule] + rest),
            },
        }
    }
}

/// Parsing is a function of the token stream alone, so it is idempotent:
/// `parse_rules` pins its result to `rules_of_tokens` of the tokens it
/// was given, and two parses of the same token stream therefore yield
/// structurally identical rule tables, or the same error.
pub proof fn lemma_parsing_is_idempotent(
    tokens: Seq<Seq<char>>,
    first: Result<Seq<RuleV>, ParseErrorV>,
    second: Result<Seq<RuleV>, ParseErrorV>,
)
    requires
        first == rules_of_tokens(tokens),
        second == rules_of_tokens(tokens),
    ensures
        first == second,
{
}

/// Takes exactly one token as a symbol; fails if none remains.
pub fn parse_symbol(lexer: &mut Lexer) -> (r: Result<Symbol, ParseError>)
    requires
        old(lexer).wf(),
    ensures
        final(lexer).wf(),
        final(lexer).tokens == old(lexer).tokens,
        old(lexer).remaining().len() == 0 ==> {
            &&& r matches Err(e) && e@ == ParseErrorV::UnexpectedEof
            &&& *final(lexer) == *old(lexer)
        },
        old(lexer).remaining().len() > 0 ==> {
            &&& r matches Ok(s) && s@ == old(lexer).remaining()[0]
            &&& final(lexer).remaining() == old(lexer).remaining().drop_first()
        },
{
    match lexer.take() {
        Some(symbol) => Ok(symbol),
        None => Err(ParseError::UnexpectedEof),
    }
}

/// Parses one symbol and requires its text to be exactly `L` or `R`.
pub fn parse_step(lexer: &mut Lexer) -> (r: Result<Step, ParseError>)
    requires
        old(lexer).wf(),
    ensures
        final(lexer).wf(),
        final(lexer).tokens == old(lexer).tokens,
        old(lexer).remaining().len() == 0 ==> {
            &&& r matches Err(e) && e@ == ParseErrorV::UnexpectedEof
            &&& *final(lexer) == *old(lexer)
        },
        old(lexer).remaining().len() > 0 ==> {
            &&& match r {
                Ok(step) => step_of_token(old(lexer).remaining()[0]) == Ok::<
                    Step,
                    ParseErrorV,
                >(step),
                Err(e) => step_of_token(old(lexer).remaining()[0]) == Err::<Step, ParseErrorV>(e@),
            }
            &&& final(lexer).remaining() == old(lexer).remaining().drop_first()
        },
{
    let symbol = match parse_symbol(lexer) {
        Ok(symbol) => symbol,
        Err(e) => {
            return Err(e);
        },
    };
    let left: String = "L".to_owned();
    let right: String = "R".to_owned();
    if symbol.name == left {
        Ok(Step::Left)
    } else if symbol.name == right {
        Ok(Step::Right)
    } else {
        Err(ParseError::InvalidStep { found: symbol })
    }
}

/// Parses one rule: state, read, write, step, next, in that input order.
pub fn parse_rule(lexer: &mut Lexer) -> (r: Result<Rule, ParseError>)
    requires
        old(lexer).wf(),
    ensures
        final(lexer).wf(),
        final(lexer).tokens == old(lexer).tokens,
        match r {
            Ok(rule) => {
                &&& rule_of_tokens(old(lexer).remaining()) == Ok::<RuleV, ParseErrorV>(rule@)
                &&& old(lexer).remaining().len() >= 5
                &&& final(lexer).remaining() == old(lexer).remaining().skip(5)
            },
            Err(e) => rule_of_tokens(old(lexer).remaining()) == Err::<RuleV, ParseErrorV>(e@),
        },
{
    let ghost toks = old(lexer).remaining();
    let state = match parse_symbol(lexer) {
        Ok(s) => s,
        Err(e) => {
            return Err(e);
        },
    };
    let read = match parse_symbol(lexer) {
        Ok(s) => s,
        Err(e) => {
            return Err(e);
        },
    };
    proof {
        assert(lexer.remaining() =~= toks.skip(2));
    }
    let write = match parse_symbol(lexer) {
        Ok(s) => s,
        Err(e) => {
            return Err(e);
        },
    };
    proof {
        assert(lexer.remaining() =~= toks.skip(3));
        assert(toks.len() >= 3);
    }
    let step = match parse_step(lexer) {
        Ok(s) => s,
        Err(e) => {
            proof {
                if toks.len() > 3 {
                    assert(toks.skip(3)[0] == toks[3]);
                }
            }
            return Err(e);
        },
    };
    proof {
        assert(toks.skip(3)[0] == toks[3]);
        assert(lexer.remaining() =~= toks.skip(4));
    }
    let next = match parse_symbol(lexer) {
        Ok(s) => s,
        Err(e) => {
            return Err(e);
        },
    };
    proof {
        assert(toks.skip(4)[0] == toks[4]);
        assert(lexer.remaining() =~= toks.skip(5));
    }
    Ok(Rule { state, read, write, next, step })
}

/// Parses rules while any token remains; the whole input must be a
/// sequence of well-formed rules.
#[verifier::loop_isolation(false)]
pub fn parse_rules(lexer: &mut Lexer) -> (r: Result<Vec<Rule>, ParseError>)
    requires
        old(lexer).wf(),
    ensures
        final(lexer).wf(),
        final(lexer).tokens == old(lexer).tokens,
        match r {
            Ok(rules) => {
                &&& rules_of_tokens(old(lexer).remaining()) == Ok::<
                    Seq<RuleV>,
                    ParseErrorV,
                >(rules.deep_view())
                &&& final(lexer).remaining().len() == 0
            },
            Err(e) => rules_of_tokens(old(lexer).remaining()) == Err::<Seq<RuleV>, ParseErrorV>(
                e@,
            ),
        },
{
    let ghost orig = old(lexer).remaining();
    let mut rules: Vec<Rule> = Vec::new();
    while lexer.has_more()
        invariant
            lexer.wf(),
            lexer.tokens == old(lexer).tokens,
            rules_of_tokens(orig) == match rules_of_tokens(lexer.remaining()) {
                Ok(rest) => Ok::<Seq<RuleV>, ParseErrorV>(rules.deep_view() + rest),
                Err(e) => Err::<Seq<RuleV>, ParseErrorV>(e),
            },
        decreases lexer.remaining().len(),
    {
        let ghost cur = lexer.remaining();
        let ghost pre = rules.deep_view();
        match parse_rule(lexer) {
            Ok(rule) => {
                let ghost rv = rule@;
                rules.push(rule);
                proof {
                    assert(rules.deep_view() =~= pre.push(rv));
                    if rules_of_tokens(cur.skip(5)) is Ok {
                        let rest = rules_of_tokens(cur.skip(5))->Ok_0;
                        assert(rules_of_tokens(cur) == Ok::<Seq<RuleV>, ParseErrorV>(
                            seq![rv] + rest,
                        ));
                        assert(pre + (seq![rv] + rest) =~= pre.push(rv) + rest);
                    }
                }
            },
            Err(e) => {
                return Err(e);
            },
        }
    }
    proof {
        assert(rules.deep_view() + Seq::<RuleV>::empty() =~= rules.deep_view());
    }
    Ok(rules)
}

/// Parses bare symbols until the input is exhausted: the initial tape,
/// left to right. Every token is a valid symbol, so this always succeeds.
#[verifier::loop_isolation(false)]
pub fn parse_tape(lexer: &mut Lexer) -> (r: Result<Vec<Symbol>, ParseError>)
    requires
        old(lexer).wf(),
    ensures
        final(lexer).wf(),
        final(lexer).tokens == old(lexer).tokens,
        final(lexer).remaining().len() == 0,
        r matches Ok(tape) && tape.deep_view() == old(lexer).remaining(),
{
    let ghost orig = old(lexer).remaining();
    let mut tape: Vec<Symbol> = Vec::new();
    while lexer.has_more()
        invariant
            lexer.wf(),
            lexer.tokens == old(lexer).tokens,
            tape.deep_view() + lexer.remaining() == orig,
        decreases lexer.remaining().len(),
    {
        let ghost pre = tape.deep_view();
        let ghost cur = lexer.remaining();
        match parse_symbol(lexer) {
            Ok(symbol) => {
                let ghost sv = symbol@;
                tape.push(symbol);
                proof {
                    assert(tape.deep_view() =~= pre.push(sv));
                    assert(pre.push(sv) + cur.drop_first() =~= pre + cur);
                }
            },
            Err(_) => {
                proof {
                    assert(false);
                }
            },
        }
    }
    proof {
        assert(tape.deep_view() =~= orig);
    }
    Ok(tape)
}

} // verus!
