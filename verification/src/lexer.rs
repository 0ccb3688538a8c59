//! The scanner's pull interface: a resumable sequence of spanned tokens.
//!
//! `next` skips whitespace and yields the next token or typed error with its
//! span — the pair of character offsets into the source where the lexeme
//! starts and one past where it ends. A failure on one token does not stop
//! the sequence: the next pull resumes right after the failed lexeme.

pub mod scan;
pub mod str_litteral;
pub mod tokens;

use vstd::prelude::*;

use crate::lexer::scan::{ScanClass, lemma_run_end, run_end, scan_run, spec_step, token_at};
use crate::lexer::tokens::{LexingError, LexingErrorView, Token, TokenView, err_view, token_view};

verus! {

/// One pull of the token sequence: a spanned token, or a typed error.
pub type Spanned<Tok, Loc, Error> = Result<(Loc, Tok, Loc), Error>;

/// Whether one pulled result is the one the scanning step names.
pub open spec fn step_matches(
    r: Option<Spanned<Token, usize, LexingError>>,
    st: Option<(int, Result<TokenView, LexingErrorView>, int)>,
) -> bool {
    match (r, st) {
        (Option::None, Option::None) => true,
        (Option::Some(Ok((a, t, b))), Option::Some((sa, Ok(tv), sb))) => a == sa && b == sb
            && token_view(t) == tv,
        (Option::Some(Err(e)), Option::Some((sa, Err(ev), sb))) => err_view(e) == ev,
        _ => false,
    }
}

/// The scanner's state: the source text, the position scanning resumes at,
/// and the span of the last lexeme produced.
pub struct Lexer<'input> {
    pub source: &'input str,
    pub pos: usize,
    pub tok_start: usize,
    pub tok_end: usize,
}

impl<'input> Lexer<'input> {
    /// The state is within the source's bounds.
    pub open spec fn wf(&self) -> bool {
        self.pos <= self.source@.len() && self.tok_start <= self.tok_end <= self.source@.len()
    }

    /// A scanner at the start of the given source text.
    pub fn new(input: &'input str) -> (r: Self)
        ensures
            r.wf(),
            r.source@ == input@,
            r.pos == 0,
    {
        Lexer { source: input, pos: 0, tok_start: 0, tok_end: 0 }
    }

    /// The last produced lexeme, verbatim.
    pub fn slice(&self) -> (r: &'input str)
        requires
            self.wf(),
        ensures
            r@ == self.source@.subrange(self.tok_start as int, self.tok_end as int),
    {
        self.source.substring_char(self.tok_start, self.tok_end)
    }

    /// The last produced lexeme's span.
    pub fn span(&self) -> (r: (usize, usize))
        ensures
            r == (self.tok_start, self.tok_end),
    {
        (self.tok_start, self.tok_end)
    }

    /// The last produced lexeme's start offset.
    pub fn start(&self) -> (r: usize)
        ensures
            r == self.tok_start,
    {
        self.tok_start
    }

    /// The last produced lexeme's end offset.
    pub fn end(&self) -> (r: usize)
        ensures
            r == self.tok_end,
    {
        self.tok_end
    }

    /// The whole source text.
    pub fn source(&self) -> (r: &'input str)
        ensures
            r@ == self.source@,
    {
        self.source
    }

    /// Pulls the next token: whitespace is skipped, and either the input is
    /// exhausted or the next token or typed error comes back with its span;
    /// scanning resumes at the span's end.
    pub fn next(&mut self) -> (r: Option<Spanned<Token, usize, LexingError>>)
        requires
            old(self).wf(),
        ensures
            final(self).wf(),
            final(self).source == old(self).source,
            step_matches(r, spec_step(old(self).source@, old(self).pos as int)),
            r is None ==> final(self).pos as int == run_end(
                old(self).source@,
                old(self).pos as int,
                ScanClass::Ws,
            ) && final(self).tok_start == old(self).tok_start && final(self).tok_end == old(
                self,
            ).tok_end,
            r is Some ==> ({
                let (sa, _, sb) = spec_step(old(self).source@, old(self).pos as int)->Some_0;
                final(self).pos == sb && final(self).tok_start == sa && final(self).tok_end == sb
                    && old(self).pos <= sa && sa < sb <= old(self).source@.len()
            }),
    {
        proof {
            reveal(crate::lexer::scan::spec_step);
            lemma_run_end(self.source@, self.pos as int, ScanClass::Ws);
        }
        let n = self.source.unicode_len();
        let j = scan_run(self.source, self.pos, ScanClass::Ws);
        if j >= n {
            self.pos = j;
            return Option::None;
        }
        let (tr, end) = token_at(self.source, j);
        self.pos = end;
        self.tok_start = j;
        self.tok_end = end;
        match tr {
            Ok(t) => Option::Some(Ok((j, t, end))),
            Err(e) => Option::Some(Err(e)),
        }
    }
}

} // verus!
