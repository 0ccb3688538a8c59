//! The minifier: re-emits a token stream as compact source text.
//!
//! A statement terminator is reinserted only where a line end followed a
//! token able to end an expression; a single space is inserted only where its
//! omission would make two adjacent lexemes re-lex differently; comments are
//! kept verbatim, each on a line of its own. Emission stops at the end of the
//! stream or at its first scanning error.

use vstd::prelude::*;

use crate::lexer::Lexer;
use crate::lexer::scan::{ScanClass, lemma_run_end, run_end, spec_step};
use crate::lexer::tokens::{Token, TokenView, token_view};

verus! {

/// Characters a trim strips: blanks and line breaks.
pub open spec fn is_trim_ws(c: char) -> bool {
    crate::lexer::scan::class_pred(ScanClass::TrimWs, c)
}

/// The length a text has once trailing whitespace is stripped.
pub open spec fn trim_end_pos(t: Seq<char>) -> int
    decreases t.len(),
{
    if t.len() > 0 && is_trim_ws(t.last()) {
        trim_end_pos(t.drop_last())
    } else {
        t.len() as int
    }
}

/// The position where a text's leading whitespace ends.
pub open spec fn trim_start_pos(t: Seq<char>) -> int {
    run_end(t, 0, ScanClass::TrimWs)
}

/// A text with trailing whitespace stripped.
pub open spec fn trim_end_sp(t: Seq<char>) -> Seq<char> {
    t.subrange(0, trim_end_pos(t))
}

/// A text with whitespace stripped at both ends.
pub open spec fn trim_sp(t: Seq<char>) -> Seq<char> {
    let e = trim_end_pos(t);
    let s = if trim_start_pos(t) <= e {
        trim_start_pos(t)
    } else {
        e
    };
    t.subrange(s, e)
}

/// Whether a token can end an expression, so that a following line end must
/// become an explicit terminator.
pub open spec fn can_end_expr(t: TokenView) -> bool {
    match t {
        TokenView::Ident(_) => true,
        TokenView::Int(_) => true,
        TokenView::Octal(_) => true,
        TokenView::Binary(_) => true,
        TokenView::Hex(_) => true,
        TokenView::String(_) => true,
        TokenView::Float(_) => true,
        TokenView::RParen => true,
        TokenView::RBracket => true,
        TokenView::RBrace => true,
        _ => false,
    }
}

/// Whether a token is emitted verbatim with no spacing concerns: paired
/// delimiters and fixed punctuation.
pub open spec fn is_plain_punct(t: TokenView) -> bool {
    match t {
        TokenView::LParen => true,
        TokenView::RParen => true,
        TokenView::LBrace => true,
        TokenView::RBrace => true,
        TokenView::LBracket => true,
        TokenView::RBracket => true,
        TokenView::Dot => true,
        TokenView::Comma => true,
        TokenView::Colon => true,
        TokenView::Wildcard => true,
        TokenView::Arrow => true,
        TokenView::Range => true,
        _ => false,
    }
}

/// Whether leaving no space between the previous significant token and the
/// next would make the two lexemes re-lex differently.
pub open spec fn needs_space_view(prev: Option<TokenView>, next: TokenView) -> bool {
    match prev {
        Option::None => false,
        Option::Some(p) => {
            let p_kw = (p is Fn || p is Let || p is Use || p is Struct || p is Enum || p is Async
                || p is Await || p is While || p is If || p is Elsif || p is For || p is Match
                || p is TypeAlias || p is Return || p is As || p is In || p is With);
            let p_num = (p is Int || p is Octal || p is Hex || p is Binary || p is Float
                || p is True || p is False);
            let n_num = (next is Int || next is Octal || next is Hex || next is Binary
                || next is Float || next is True || next is False);
            ||| (p_kw && next is Ident)
            ||| (p is Async && next is Fn)
            ||| ((p is If || p is While || p is Return) && next is LParen)
            ||| (p is Spawn && next is With)
            ||| ((p is Let || p is While || p is For || p is Match) && (next is Atomic
                || next is Lazy || next is Mut))
            ||| (p is Ident && (next is Ident || next is In))
            ||| ((p_num || p is Ident) && next is Ident)
            ||| ((p is In || p is While || p is If || p is Elsif || p is Await || p is Async
                || p is Return) && n_num)
            ||| (p is Ident && (next is As || next is If))
            ||| ((p is Atomic || p is Lazy || p is Mut) && (next is Ident || next is Atomic
                || next is Mut || next is Lazy))
        },
    }
}

/// Whether the emitted text already ends softly, so that no space is needed
/// before the next lexeme.
pub open spec fn ends_soft(acc: Seq<char>) -> bool {
    acc.len() > 0 && (acc.last() == ' ' || acc.last() == '\n' || acc.last() == ';' || acc.last()
        == '{' || acc.last() == '(' || acc.last() == '[')
}

/// Whether a token carries no code of its own: it never becomes the previous
/// significant token.
pub open spec fn is_insignificant(t: TokenView) -> bool {
    t is LineComment || t is BlockComment || t is DocComment || t is Whitespace || t is LineEnd
}

/// The previous significant token after emitting `tv`.
pub open spec fn next_last(tv: TokenView, last: Option<TokenView>) -> Option<TokenView> {
    if is_insignificant(tv) {
        last
    } else {
        Option::Some(tv)
    }
}

/// What one token adds to the output `acc`, given the token's lexeme
/// `s[a..b]` and the previous significant token.
pub open spec fn chunk_of(
    acc: Seq<char>,
    s: Seq<char>,
    a: int,
    b: int,
    tv: TokenView,
    last: Option<TokenView>,
) -> Seq<char> {
    match tv {
        TokenView::LineComment(txt) => "//"@ + trim_end_sp(txt) + "\n"@,
        TokenView::BlockComment(txt) => "/*"@ + trim_sp(txt) + "*/\n"@,
        TokenView::DocComment(txt) => "///"@ + trim_end_sp(txt) + "\n"@,
        TokenView::LineEnd => if last matches Option::Some(p) && can_end_expr(p) {
            ";"@
        } else {
            Seq::empty()
        },
        TokenView::Whitespace => Seq::empty(),
        _ => if is_plain_punct(tv) {
            s.subrange(a, b)
        } else {
            (if needs_space_view(last, tv) && !ends_soft(acc) {
                " "@
            } else {
                Seq::empty()
            }) + s.subrange(a, b)
        },
    }
}

/// The whole minified output: the text emitted so far, extended token by
/// token until the stream ends or fails.
#[verifier::opaque]
pub open spec fn min_from(s: Seq<char>, pos: int, last: Option<TokenView>, acc: Seq<char>) -> Seq<
    char,
>
    decreases s.len() - pos,
{
    if !(0 <= pos <= s.len()) {
        acc
    } else {
        match spec_step(s, pos) {
            Option::None => acc,
            Option::Some((a, r, b)) => if !(pos <= a && a < b && b <= s.len()) {
                acc
            } else {
                match r {
                    Err(_) => acc,
                    Ok(tv) => min_from(s, b, next_last(tv, last), acc + chunk_of(acc, s, a, b, tv, last)),
                }
            },
        }
    }
}

/// One unfolding of `min_from`: how the output grows at one scanning step.
proof fn lemma_min_from_step(s: Seq<char>, pos: int, last: Option<TokenView>, acc: Seq<char>)
    requires
        0 <= pos <= s.len(),
    ensures
        (match spec_step(s, pos) {
            Option::None => min_from(s, pos, last, acc) == acc,
            Option::Some((a, r, b)) => if pos <= a && a < b && b <= s.len() {
                match r {
                    Err(_) => min_from(s, pos, last, acc) == acc,
                    Ok(tv) => min_from(s, pos, last, acc) == min_from(
                        s,
                        b,
                        next_last(tv, last),
                        acc + chunk_of(acc, s, a, b, tv, last),
                    ),
                }
            } else {
                min_from(s, pos, last, acc) == acc
            },
        }),
{
    reveal(min_from);
}

/// Inserts one pending space: a space goes out exactly when one is asked for
/// and the text so far does not already end softly.
pub fn flush_space(result: &mut String, do_insert: bool)
    ensures
        final(result)@ == old(result)@ + (if do_insert && !ends_soft(old(result)@) {
            " "@
        } else {
            Seq::<char>::empty()
        }),
{
    if do_insert {
        let n = result.as_str().unicode_len();
        if n == 0 {
            result.append(" ");
            return ;
        }
        let c = result.as_str().get_char(n - 1);
        if !(c == ' ' || c == '\n' || c == ';' || c == '{' || c == '(' || c == '[') {
            result.append(" ");
            return ;
        }
    }
    proof {
        assert(final(result)@ =~= old(result)@ + Seq::<char>::empty());
    }
}

/// Whether two adjacent lexemes would re-lex differently without a space.
pub fn needs_space_between(prev: &Option<Token>, next: &Token) -> (r: bool)
    ensures
        r == needs_space_view(
            match prev {
                Option::Some(p) => Option::Some(token_view(*p)),
                Option::None => Option::None,
            },
            token_view(*next),
        ),
{
    match prev {
        Option::None => false,
        Option::Some(p) => {
            let p_kw = matches!(
                p,
                Token::Fn | Token::Let | Token::Use | Token::Struct | Token::Enum | Token::Async
                    | Token::Await | Token::While | Token::If | Token::Elsif | Token::For
                    | Token::Match | Token::TypeAlias | Token::Return | Token::As | Token::In
                    | Token::With
            );
            let p_num = matches!(
                p,
                Token::Int(_) | Token::Octal(_) | Token::Hex(_) | Token::Binary(_)
                    | Token::Float(_) | Token::True | Token::False
            );
            let n_num = matches!(
                next,
                Token::Int(_) | Token::Octal(_) | Token::Hex(_) | Token::Binary(_)
                    | Token::Float(_) | Token::True | Token::False
            );
            let n_ident = matches!(next, Token::Ident(_));
            (p_kw && n_ident) || (matches!(p, Token::Async) && matches!(next, Token::Fn)) || (
            matches!(p, Token::If | Token::While | Token::Return) && matches!(next, Token::LParen))
                || (matches!(p, Token::Spawn) && matches!(next, Token::With)) || (matches!(
                p,
                Token::Let | Token::While | Token::For | Token::Match,
            ) && matches!(next, Token::Atomic | Token::Lazy | Token::Mut)) || (matches!(
                p,
                Token::Ident(_),
            ) && (n_ident || matches!(next, Token::In))) || ((p_num || matches!(p, Token::Ident(_)))
                && n_ident) || (matches!(
                p,
                Token::In | Token::While | Token::If | Token::Elsif | Token::Await | Token::Async
                    | Token::Return,
            ) && n_num) || (matches!(p, Token::Ident(_)) && matches!(next, Token::As | Token::If))
                || (matches!(p, Token::Atomic | Token::Lazy | Token::Mut) && (n_ident || matches!(
                next,
                Token::Atomic | Token::Mut | Token::Lazy,
            )))
        },
    }
}

/// Whether the character just before position `e` is trimmable whitespace.
fn trim_char_at(t: &str, e: usize) -> (r: bool)
    requires
        0 < e <= t@.len(),
    ensures
        r == is_trim_ws(t@[e - 1]),
{
    let c = t.get_char(e - 1);
    c == ' ' || c == '\t' || c == '\r' || c == '\n' || c == '\u{c}'
}

/// A trimmed end never passes the text's bounds.
proof fn lemma_trim_end_bounds(t: Seq<char>)
    ensures
        0 <= trim_end_pos(t) <= t.len(),
    decreases t.len(),
{
    if t.len() > 0 && is_trim_ws(t.last()) {
        lemma_trim_end_bounds(t.drop_last());
    }
}

/// The end of a text once trailing whitespace is stripped.
fn trim_end_ix(t: &str) -> (e: usize)
    ensures
        e as int == trim_end_pos(t@),
        e <= t@.len(),
{
    let n = t.unicode_len();
    let mut e = n;
    proof {
        assert(t@.subrange(0, n as int) =~= t@);
        lemma_trim_end_bounds(t@);
    }
    while e > 0 && trim_char_at(t, e)
        invariant
            0 <= e <= n,
            n == t@.len(),
            trim_end_pos(t@) == trim_end_pos(t@.subrange(0, e as int)),
            trim_end_pos(t@.subrange(0, e as int)) <= e,
        decreases e,
    {
        proof {
            assert(t@.subrange(0, e as int).last() == t@[e - 1]);
            assert(t@.subrange(0, e as int).drop_last() =~= t@.subrange(0, e - 1));
            lemma_trim_end_bounds(t@.subrange(0, e - 1));
        }
        e = e - 1;
    }
    proof {
        if e > 0 {
            assert(t@.subrange(0, e as int).last() == t@[e - 1]);
        }
        assert(trim_end_pos(t@.subrange(0, e as int)) == e);
    }
    e
}

/// Model of the remembered previous significant token.
pub open spec fn opt_view(o: Option<Token>) -> Option<TokenView> {
    match o {
        Option::Some(p) => Option::Some(token_view(p)),
        Option::None => Option::None,
    }
}

/// Emits one token to the output, by the minifier's spacing rules.
#[verifier::rlimit(100)]
fn emit_token(result: &mut String, source: &str, a: usize, b: usize, token: &Token, last: &Option<
    Token,
>)
    requires
        a <= b <= source@.len(),
    ensures
        final(result)@ == old(result)@ + chunk_of(
            old(result)@,
            source@,
            a as int,
            b as int,
            token_view(*token),
            opt_view(*last),
        ),
{
    let ghost tv = token_view(*token);
    let ghost last_v = opt_view(*last);
    let ghost acc0 = result@;
    match token {
        Token::LineComment(text) => {
            result.append("//");
            let e = trim_end_ix(text.as_str());
            result.append(text.as_str().substring_char(0, e));
            result.append("\n");
            proof {
                assert(result@ =~= acc0 + chunk_of(acc0, source@, a as int, b as int, tv, last_v));
            }
        },
        Token::BlockComment(text) => {
            result.append("/*");
            let e = trim_end_ix(text.as_str());
            let s0 = crate::lexer::scan::scan_run(text.as_str(), 0, ScanClass::TrimWs);
            let s1 = if s0 <= e {
                s0
            } else {
                e
            };
            result.append(text.as_str().substring_char(s1, e));
            result.append("*/\n");
            proof {
                assert(result@ =~= acc0 + chunk_of(acc0, source@, a as int, b as int, tv, last_v));
            }
        },
        Token::DocComment(text) => {
            result.append("///");
            let e = trim_end_ix(text.as_str());
            result.append(text.as_str().substring_char(0, e));
            result.append("\n");
            proof {
                assert(result@ =~= acc0 + chunk_of(acc0, source@, a as int, b as int, tv, last_v));
            }
        },
        Token::LineEnd => {
            let ends = match last {
                Option::Some(p) => matches!(
                    p,
                    Token::Ident(_) | Token::Int(_) | Token::Octal(_) | Token::Binary(_)
                        | Token::Hex(_) | Token::String(_) | Token::Float(_) | Token::RParen
                        | Token::RBracket | Token::RBrace
                ),
                Option::None => false,
            };
            if ends {
                result.append(";");
            }
            proof {
                assert(result@ =~= acc0 + chunk_of(acc0, source@, a as int, b as int, tv, last_v));
            }
        },
        Token::Whitespace => {
            proof {
                assert(result@ =~= acc0 + chunk_of(acc0, source@, a as int, b as int, tv, last_v));
            }
        },
        Token::LParen | Token::RParen | Token::LBrace | Token::RBrace | Token::LBracket
            | Token::RBracket | Token::Dot | Token::Comma | Token::Colon | Token::Wildcard
            | Token::Arrow | Token::Range => {
            result.append(source.substring_char(a, b));
            proof {
                assert(result@ =~= acc0 + chunk_of(acc0, source@, a as int, b as int, tv, last_v));
            }
        },
        _ => {
            let sp = needs_space_between(last, token);
            flush_space(result, sp);
            result.append(source.substring_char(a, b));
            proof {
                assert(result@ =~= acc0 + chunk_of(acc0, source@, a as int, b as int, tv, last_v));
            }
        },
    }
}

/// One pull-and-emit step of the minifier. Says whether the stream ended.
#[verifier::rlimit(100)]
#[verifier::spinoff_prover]
fn min_step(lexer: &mut Lexer<'_>, result: &mut String, last: &mut Option<Token>) -> (done: bool)
    requires
        old(lexer).wf(),
    ensures
        final(lexer).wf(),
        final(lexer).source == old(lexer).source,
        done ==> final(result)@ == old(result)@ && min_from(
            old(lexer).source@,
            old(lexer).pos as int,
            opt_view(*old(last)),
            old(result)@,
        ) == old(result)@,
        !done ==> min_from(
            old(lexer).source@,
            old(lexer).pos as int,
            opt_view(*old(last)),
            old(result)@,
        ) == min_from(
            old(lexer).source@,
            final(lexer).pos as int,
            opt_view(*final(last)),
            final(result)@,
        ) && old(lexer).pos < final(lexer).pos,
{
    let ghost src = lexer.source@;
    let ghost pos_here = lexer.pos as int;
    let ghost last_v = opt_view(*last);
    let ghost acc0 = result@;
    proof {
        lemma_run_end(src, pos_here, ScanClass::Ws);
        lemma_min_from_step(src, pos_here, last_v, acc0);
    }
    let step = lexer.next();
    match step {
        Option::None => true,
        Option::Some(Err(_)) => true,
        Option::Some(Ok((a, token, b))) => {
            let ghost tv = token_view(token);
            emit_token(result, lexer.source(), a, b, &token, last);
            let significant = !matches!(
                token,
                Token::Whitespace | Token::LineEnd | Token::LineComment(_) | Token::BlockComment(
                    _,
                ) | Token::DocComment(_)
            );
            proof {
                assert(next_last(tv, last_v) == if is_insignificant(tv) {
                    last_v
                } else {
                    Option::Some(tv)
                });
            }
            if significant {
                *last = Option::Some(token);
            }
            proof {
                assert(opt_view(*last) == next_last(tv, last_v));
            }
            false
        },
    }
}

/// Emits the token stream as compact text: terminators where a line end
/// followed an expression ender, one space only where omission would change
/// the lexing, comments verbatim. Emission stops at the end of the stream or
/// at its first scanning error.
pub fn minify(lexer: Lexer<'_>) -> (r: String)
    requires
        lexer.wf(),
    ensures
        r@ == min_from(lexer.source@, lexer.pos as int, Option::None, Seq::empty()),
{
    let ghost src = lexer.source@;
    let ghost pos0 = lexer.pos as int;
    let mut lx = lexer;
    let mut result = String::new();
    let mut last_significant: Option<Token> = Option::None;
    loop
        invariant
            lx.wf(),
            lx.source@ == src,
            src == lexer.source@,
            pos0 == lexer.pos as int,
            min_from(src, pos0, Option::None, Seq::empty()) == min_from(
                src,
                lx.pos as int,
                opt_view(last_significant),
                result@,
            ),
        decreases src.len() - lx.pos,
    {
        let done = min_step(&mut lx, &mut result, &mut last_significant);
        if done {
            return result;
        }
    }
}

} // verus!
