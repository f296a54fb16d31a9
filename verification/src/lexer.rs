//! The lexer: splits raw source text into whitespace-delimited tokens and
//! serves them to the parser, in order, one at a time.

use vstd::prelude::*;

use crate::symbol::Symbol;

verus! {

/// The two token delimiters of the language: space and newline.
pub open spec fn is_delim(c: char) -> bool {
    c == ' ' || c == '\n'
}

/// Index of the first delimiter at or after `i`, or `s.len()` if the rest
/// of `s` is delimiter-free: the end of the token that starts at `i`.
pub open spec fn token_end(s: Seq<char>, i: int) -> int
    decreases s.len() - i,
{
    if !(0 <= i < s.len()) {
        s.len() as int
    } else if is_delim(s[i]) {
        i
    } else {
        token_end(s, i + 1)
    }
}

/// The tokens of `s` from position `i` on: maximal runs of non-delimiter
/// characters, in order. Empty runs between consecutive delimiters are
/// discarded, so every token is non-empty.
pub open spec fn tokens_from(s: Seq<char>, i: int) -> Seq<Seq<char>>
    decreases s.len() - i,
    via tokens_from_decreases
{
    if !(0 <= i < s.len()) {
        seq![]
    } else if is_delim(s[i]) {
        tokens_from(s, i + 1)
    } else {
        seq![s.subrange(i, token_end(s, i))] + tokens_from(s, token_end(s, i))
    }
}

#[via_fn]
proof fn tokens_from_decreases(s: Seq<char>, i: int) {
    if 0 <= i < s.len() && !is_delim(s[i]) {
        lemma_token_end_bounds(s, i);
    }
}

/// The token stream of a whole source text.
pub open spec fn tokens_of(s: Seq<char>) -> Seq<Seq<char>> {
    tokens_from(s, 0)
}

/// `token_end(s, i)` lies between `i` and `s.len()`, no character before
/// it (from `i` on) is a delimiter, and the character at it (if any) is.
pub proof fn lemma_token_end_bounds(s: Seq<char>, i: int)
    requires
        0 <= i <= s.len(),
    ensures
        i <= token_end(s, i) <= s.len(),
        forall|j: int| i <= j < token_end(s, i) ==> !is_delim(s[j]),
        token_end(s, i) < s.len() ==> is_delim(s[token_end(s, i)]),
    decreases s.len() - i,
{
    if i < s.len() && !is_delim(s[i]) {
        lemma_token_end_bounds(s, i + 1);
    }
}

/// If `[i, k)` is delimiter-free and `k` is a delimiter (or the end of
/// `s`), then `k` is exactly the end of the token starting at `i`.
pub proof fn lemma_token_end_at(s: Seq<char>, i: int, k: int)
    requires
        0 <= i <= k <= s.len(),
        forall|j: int| i <= j < k ==> !is_delim(s[j]),
        k < s.len() ==> is_delim(s[k]),
    ensures
        token_end(s, i) == k,
    decreases k - i,
{
    if i < k {
        lemma_token_end_at(s, i + 1, k);
    }
}

/// Splits `src` on spaces and newlines into its non-empty tokens.
pub fn tokenize(src: &str) -> (tokens: Vec<Symbol>)
    ensures
        tokens.deep_view() == tokens_of(src@),
{
    let n = src.unicode_len();
    let mut tokens: Vec<Symbol> = Vec::new();
    let mut start: usize = 0;
    let mut i: usize = 0;
    while i < n
        invariant
            n == src@.len(),
            start <= i <= n,
            forall|j: int| start <= j < i ==> !is_delim(src@[j]),
            tokens_from(src@, 0) == tokens.deep_view() + tokens_from(src@, start as int),
        decreases n - i,
    {
        let c = src.get_char(i);
        if c == ' ' || c == '\n' {
            if start < i {
                let text = src.substring_char(start, i);
                let ghost old_tokens = tokens.deep_view();
                tokens.push(Symbol::new(text));
                proof {
                    lemma_token_end_at(src@, start as int, i as int);
                    assert(tokens_from(src@, start as int) == seq![
                        src@.subrange(start as int, i as int),
                    ] + tokens_from(src@, i as int));
                    assert(tokens.deep_view() =~= old_tokens.push(
                        src@.subrange(start as int, i as int),
                    ));
                    assert(tokens.deep_view() + tokens_from(src@, i + 1) =~= old_tokens
                        + tokens_from(src@, start as int));
                }
            }
            start = i + 1;
        }
        i = i + 1;
    }
    if start < n {
        let text = src.substring_char(start, n);
        let ghost old_tokens = tokens.deep_view();
        tokens.push(Symbol::new(text));
        proof {
            lemma_token_end_at(src@, start as int, n as int);
            assert(tokens_from(src@, start as int) == seq![
                src@.subrange(start as int, n as int),
            ] + tokens_from(src@, n as int));
            assert(tokens.deep_view() =~= old_tokens.push(
                src@.subrange(start as int, n as int),
            ));
            assert(tokens.deep_view() =~= old_tokens + tokens_from(src@, start as int));
        }
    }
    tokens
}

/// A token stream: the tokens of one source text, consumed left to right
/// by the parser, with one position of lookahead (`has_more`).
pub struct Lexer {
    pub tokens: Vec<Symbol>,
    pub pos: usize,
}

impl Lexer {
    /// The stream never points past the end of its tokens.
    pub open spec fn wf(&self) -> bool {
        self.pos <= self.tokens.len()
    }

    /// The tokens not yet consumed, in order.
    pub open spec fn remaining(&self) -> Seq<Seq<char>> {
        self.tokens.deep_view().skip(self.pos as int)
    }

    /// A stream positioned at the first of the given tokens.
    pub fn new(tokens: Vec<Symbol>) -> (lexer: Lexer)
        ensures
            lexer.wf(),
            lexer.remaining() == tokens.deep_view(),
    {
        let lexer = Lexer { tokens, pos: 0 };
        proof {
            assert(lexer.remaining() =~= lexer.tokens.deep_view());
        }
        lexer
    }

    /// Tokenizes a source text and opens a stream over it.
    pub fn from_source(src: &str) -> (lexer: Lexer)
        ensures
            lexer.wf(),
            lexer.remaining() == tokens_of(src@),
    {
        Lexer::new(tokenize(src))
    }

    /// Whether at least one token remains: the parser's lookahead.
    pub fn has_more(&self) -> (more: bool)
        requires
            self.wf(),
        ensures
            more <==> self.remaining().len() > 0,
    {
        self.pos < self.tokens.len()
    }

    /// Consumes and returns the next token, or `None` at end of input.
    pub fn take(&mut self) -> (token: Option<Symbol>)
        requires
            old(self).wf(),
        ensures
            final(self).wf(),
            final(self).tokens == old(self).tokens,
            old(self).remaining().len() == 0 ==> token is None && *final(self) == *old(self),
            old(self).remaining().len() > 0 ==> {
                &&& token matches Some(t) && t@ == old(self).remaining()[0]
                &&& final(self).remaining() == old(self).remaining().drop_first()
            },
    {
        if self.pos < self.tokens.len() {
            let token = self.tokens[self.pos].clone();
            self.pos = self.pos + 1;
            proof {
                assert(self.remaining() =~= old(self).remaining().drop_first());
            }
            Some(token)
        } else {
            None
        }
    }
}

} // verus!
