//! The scanner itself: a single-token step function over the source text.
//!
//! The specification half of this module pins down, as functions over
//! `Seq<char>`, exactly which lexeme starts at a position, where it ends, and
//! which token or typed error it yields: longest match wins, keywords win
//! over the identifier shape, multi-character operators win over their
//! prefixes, and a float is chosen over an integer exactly when the
//! distinguishing syntax (a decimal point with a following digit) is present.
//! The executable half scans by the same rules and is proved to return the
//! token the specification names.

use vstd::prelude::*;

use crate::lexer::str_litteral::{StringPart, StringPartView};
use crate::lexer::tokens::{LexingError, LexingErrorView, Token, TokenView, err_view, res_view, token_view};

verus! {

// ---------------------------------------------------------------------------
// Character classes
// ---------------------------------------------------------------------------

/// Characters skipped between tokens: space, tab, form feed.
pub open spec fn is_ws(c: char) -> bool {
    c == ' ' || c == '\t' || c == '\u{c}'
}

pub open spec fn is_digit(c: char) -> bool {
    ('0' as u32) <= (c as u32) && (c as u32) <= ('9' as u32)
}

pub open spec fn is_ident_start(c: char) -> bool {
    c == '_' || (('a' as u32) <= (c as u32) && (c as u32) <= ('z' as u32)) || (('A' as u32) <= (c
        as u32) && (c as u32) <= ('Z' as u32))
}

pub open spec fn is_ident_cont(c: char) -> bool {
    is_ident_start(c) || is_digit(c)
}

pub open spec fn is_bin_digit(c: char) -> bool {
    c == '0' || c == '1'
}

pub open spec fn is_oct_digit(c: char) -> bool {
    ('0' as u32) <= (c as u32) && (c as u32) <= ('7' as u32)
}

pub open spec fn is_hex_digit(c: char) -> bool {
    is_digit(c) || (('a' as u32) <= (c as u32) && (c as u32) <= ('f' as u32)) || (('A' as u32) <= (
    c as u32) && (c as u32) <= ('F' as u32))
}

/// The numeric value of a digit in any radix this scanner knows.
pub open spec fn digit_val(c: char) -> int {
    if is_digit(c) {
        (c as u32 - '0' as u32) as int
    } else if ('a' as u32) <= (c as u32) && (c as u32) <= ('f' as u32) {
        (c as u32 - 'a' as u32 + 10) as int
    } else if ('A' as u32) <= (c as u32) && (c as u32) <= ('F' as u32) {
        (c as u32 - 'A' as u32 + 10) as int
    } else {
        0
    }
}

/// The classes of characters whose maximal runs the scanner needs.
#[derive(Clone, Copy, Debug, PartialEq, Eq, Structural)]
pub enum ScanClass {
    /// Whitespace skipped between tokens.
    Ws,
    /// Continuation of an identifier or keyword.
    IdentCont,
    /// Pure decimal digits.
    Digit,
    /// Continuation of a decimal run: digits and `_` separators.
    DecCont,
    /// Continuation of a binary literal: `0`, `1` and `_`.
    BinCont,
    /// Continuation of an octal literal: `0`..`7` and `_`.
    OctCont,
    /// A hexadecimal digit (the hex shape takes no separators).
    HexDigit,
    /// Anything but a line break: the body of a line or doc comment.
    NotNl,
    /// Whitespace a trim strips: blanks and line breaks.
    TrimWs,
    /// Logical line terminators: line breaks and semicolons.
    LineEndCh,
}

pub open spec fn class_pred(k: ScanClass, c: char) -> bool {
    match k {
        ScanClass::Ws => is_ws(c),
        ScanClass::IdentCont => is_ident_cont(c),
        ScanClass::Digit => is_digit(c),
        ScanClass::DecCont => is_digit(c) || c == '_',
        ScanClass::BinCont => is_bin_digit(c) || c == '_',
        ScanClass::OctCont => is_oct_digit(c) || c == '_',
        ScanClass::HexDigit => is_hex_digit(c),
        ScanClass::NotNl => c != '\n',
        ScanClass::TrimWs => c == ' ' || c == '\t' || c == '\r' || c == '\n' || c == '\u{c}',
        ScanClass::LineEndCh => c == '\n' || c == ';',
    }
}

/// One past the end of the maximal run of class `k` starting at `i`.
pub open spec fn run_end(s: Seq<char>, i: int, k: ScanClass) -> int
    decreases s.len() - i,
{
    if 0 <= i < s.len() && class_pred(k, s[i]) {
        run_end(s, i + 1, k)
    } else {
        i
    }
}

pub proof fn lemma_run_end(s: Seq<char>, i: int, k: ScanClass)
    requires
        0 <= i <= s.len(),
    ensures
        i <= run_end(s, i, k) <= s.len(),
        forall|j: int| i <= j < run_end(s, i, k) ==> class_pred(k, s[j]),
        run_end(s, i, k) < s.len() ==> !class_pred(k, s[run_end(s, i, k)]),
    decreases s.len() - i,
{
    if i < s.len() && class_pred(k, s[i]) {
        lemma_run_end(s, i + 1, k);
    }
}

// ---------------------------------------------------------------------------
// Numeric values
// ---------------------------------------------------------------------------

/// The value of a run of decimal digits.
pub open spec fn dec_val(s: Seq<char>) -> int
    decreases s.len(),
{
    if s.len() == 0 {
        0
    } else {
        dec_val(s.drop_last()) * 10 + digit_val(s.last())
    }
}

/// The value of a run of digits in the given base, with `_` separators
/// stripped before conversion.
pub open spec fn radix_val(s: Seq<char>, base: int) -> int
    decreases s.len(),
{
    if s.len() == 0 {
        0
    } else if s.last() == '_' {
        radix_val(s.drop_last(), base)
    } else {
        radix_val(s.drop_last(), base) * base + digit_val(s.last())
    }
}

// ---------------------------------------------------------------------------
// Words: keywords and identifiers
// ---------------------------------------------------------------------------

/// The token an identifier-shaped lexeme denotes: a keyword where the lexeme
/// is one, the wildcard for a bare `_`, and otherwise an identifier.
pub open spec fn word_view(w: Seq<char>) -> TokenView {
    if w == "_"@ {
        TokenView::Wildcard
    } else if w == "fn"@ {
        TokenView::Fn
    } else if w == "let"@ {
        TokenView::Let
    } else if w == "struct"@ {
        TokenView::Struct
    } else if w == "if"@ {
        TokenView::If
    } else if w == "elsif"@ {
        TokenView::Elsif
    } else if w == "else"@ {
        TokenView::Else
    } else if w == "spawn"@ {
        TokenView::Spawn
    } else if w == "shared"@ {
        TokenView::Shared
    } else if w == "with"@ {
        TokenView::With
    } else if w == "atomic"@ {
        TokenView::Atomic
    } else if w == "match"@ {
        TokenView::Match
    } else if w == "lazy"@ {
        TokenView::Lazy
    } else if w == "mut"@ {
        TokenView::Mut
    } else if w == "inf"@ {
        TokenView::Inf
    } else if w == "for"@ {
        TokenView::For
    } else if w == "in"@ {
        TokenView::In
    } else if w == "while"@ {
        TokenView::While
    } else if w == "break"@ {
        TokenView::Break
    } else if w == "true"@ {
        TokenView::True
    } else if w == "false"@ {
        TokenView::False
    } else if w == "use"@ {
        TokenView::Use
    } else if w == "async"@ {
        TokenView::Async
    } else if w == "await"@ {
        TokenView::Await
    } else if w == "enum"@ {
        TokenView::Enum
    } else if w == "type"@ {
        TokenView::TypeAlias
    } else if w == "as"@ {
        TokenView::As
    } else if w == "return"@ {
        TokenView::Return
    } else {
        TokenView::Ident(w)
    }
}

// ---------------------------------------------------------------------------
// Number shapes
// ---------------------------------------------------------------------------

/// One past the integer part of a float starting at `j`: a lone `0`, or a
/// nonzero digit followed by digits; `j` itself if neither shape is present.
pub open spec fn int_part_end(s: Seq<char>, j: int) -> int {
    if 0 <= j < s.len() && s[j] == '0' {
        j + 1
    } else if 0 <= j < s.len() && is_digit(s[j]) {
        run_end(s, j, ScanClass::Digit)
    } else {
        j
    }
}

/// One past the exponent of a float whose fractional part ends at `f`, or
/// `f` itself if no complete exponent follows.
pub open spec fn exp_end(s: Seq<char>, f: int) -> int {
    if 0 <= f < s.len() && (s[f] == 'e' || s[f] == 'E') {
        let g = if f + 1 < s.len() && (s[f + 1] == '+' || s[f + 1] == '-') {
            f + 2
        } else {
            f + 1
        };
        if g < s.len() && is_digit(s[g]) {
            run_end(s, g, ScanClass::DecCont)
        } else {
            f
        }
    } else {
        f
    }
}

/// One past the end of a float lexeme starting at `i`, or `i` itself when no
/// float shape starts there. The shape is an optional sign and integer part,
/// a mandatory point with at least one fractional digit, and an optional
/// exponent; the fractional and exponent runs admit `_` separators.
pub open spec fn float_end(s: Seq<char>, i: int) -> int {
    let j = if 0 <= i < s.len() && s[i] == '-' {
        i + 1
    } else {
        i
    };
    let k = int_part_end(s, j);
    if j > i && k == j {
        // a sign must be followed by an integer part
        i
    } else if k < s.len() && s[k] == '.' && k + 1 < s.len() && is_digit(s[k + 1]) {
        exp_end(s, run_end(s, k + 1, ScanClass::DecCont))
    } else {
        i
    }
}

// ---------------------------------------------------------------------------
// String literal and comment boundaries
// ---------------------------------------------------------------------------

/// The position of the quote closing a string literal whose body starts at
/// `j`, or `None` when the literal never closes. A backslash always consumes
/// the following character; a raw control character ends the literal shape.
pub open spec fn str_body_end(s: Seq<char>, j: int) -> Option<int>
    decreases s.len() - j,
{
    if j < 0 || j >= s.len() {
        None
    } else if s[j] == '"' {
        Some(j)
    } else if s[j] == '\\' {
        if j + 1 < s.len() {
            str_body_end(s, j + 2)
        } else {
            None
        }
    } else if (s[j] as u32) < 32 {
        None
    } else {
        str_body_end(s, j + 1)
    }
}

/// The position of the first `*/` at or after `j`, or `None`.
pub open spec fn block_end(s: Seq<char>, j: int) -> Option<int>
    decreases s.len() - j,
{
    if j < 0 || j >= s.len() {
        None
    } else if s[j] == '*' && j + 1 < s.len() && s[j + 1] == '/' {
        Some(j)
    } else {
        block_end(s, j + 1)
    }
}

/// The position of the `}` closing an interpolation whose interior starts at
/// `j` with `depth` braces already open, or `None` when the braces never
/// return to balance.
pub open spec fn brace_end(s: Seq<char>, j: int, depth: int) -> Option<int>
    decreases s.len() - j,
{
    if j < 0 || j >= s.len() {
        None
    } else if s[j] == '{' {
        brace_end(s, j + 1, depth + 1)
    } else if s[j] == '}' {
        if depth == 1 {
            Some(j)
        } else {
            brace_end(s, j + 1, depth - 1)
        }
    } else {
        brace_end(s, j + 1, depth)
    }
}

// ---------------------------------------------------------------------------
// Escape decoding
// ---------------------------------------------------------------------------

/// The fixed escape table: the character a simple escape decodes to.
pub open spec fn escape_decode(c: char) -> Option<char> {
    if c == 'n' {
        Some('\n')
    } else if c == 'r' {
        Some('\r')
    } else if c == 't' {
        Some('\t')
    } else if c == '\\' {
        Some('\\')
    } else if c == '0' {
        Some('\u{0}')
    } else if c == '"' {
        Some('"')
    } else if c == '\'' {
        Some('\'')
    } else if c == '#' {
        Some('#')
    } else {
        None
    }
}

/// A Unicode scalar value: a code point outside the surrogate range.
pub open spec fn is_scalar_value(v: int) -> bool {
    (0 <= v < 0xD800) || (0xE000 <= v <= 0x10FFFF)
}

/// The outcome of a `\u{...}` escape whose text starts at `i` (the position
/// after the `u`): the decoded scalar value and the position after the
/// closing brace, or the reason the escape is rejected.
pub open spec fn spec_unicode(t: Seq<char>, i: int) -> Result<(StringPartView, int), LexingErrorView> {
    if i >= t.len() {
        Err(LexingErrorView::UnterminatedString("Incomplete Unicode escape sequence"@))
    } else if t[i] != '{' {
        Err(
            LexingErrorView::UnterminatedString(
                "Invalid start of Unicode escape sequence: "@ + seq![t[i]],
            ),
        )
    } else {
        let h = run_end(t, i + 1, ScanClass::HexDigit);
        if h >= t.len() {
            Err(LexingErrorView::UnterminatedString("Incomplete Unicode escape sequence"@))
        } else if t[h] != '}' {
            Err(
                LexingErrorView::UnterminatedString(
                    "Invalid character in Unicode escape: "@ + seq![t[h]],
                ),
            )
        } else if h - (i + 1) < 1 || h - (i + 1) > 6 {
            Err(LexingErrorView::UnterminatedString("Unicode escape must have 1-6 hex digits"@))
        } else {
            let v = radix_val(t.subrange(i + 1, h), 16);
            if is_scalar_value(v) {
                Ok((StringPartView::Unicode(v), h + 1))
            } else {
                Err(LexingErrorView::UnterminatedString("Invalid Unicode code point"@))
            }
        }
    }
}

/// The outcome of an escape whose introducing backslash stands at `i - 1`:
/// the decoded part and the position after the escape, or the reason the
/// escape is rejected.
pub open spec fn spec_escape(t: Seq<char>, i: int) -> Result<(StringPartView, int), LexingErrorView> {
    if i >= t.len() {
        Err(LexingErrorView::UnterminatedString("String terminated with escape character"@))
    } else if t[i] == 'u' {
        spec_unicode(t, i + 1)
    } else {
        match escape_decode(t[i]) {
            Some(d) => Ok((StringPartView::EscapeChar(d), i + 1)),
            None => Err(
                LexingErrorView::UnterminatedString("Unknown escape sequence: \\"@ + seq![t[i]]),
            ),
        }
    }
}

// ---------------------------------------------------------------------------
// The token step, the string decomposition, and whole-run lexing
// ---------------------------------------------------------------------------
// These are mutually recursive: a string token's content is decomposed by the
// sub-lexer, and each interpolated interior is lexed by the scanner again.
// The measure is the length of the text in hand, then a rank ordering the
// functions, then the text remaining after the cursor.

/// The token or error starting exactly at position `i`, and one past its end.
pub open spec fn spec_token(s: Seq<char>, i: int) -> (Result<TokenView, LexingErrorView>, int)
    decreases s.len(), 0int, 0int,
{
    if !(0 <= i < s.len()) {
        (Err(LexingErrorView::InvalidToken), i + 1)
    } else {
        let c = s[i];
        if c == '\n' || c == ';' {
            (Ok(TokenView::LineEnd), run_end(s, i + 1, ScanClass::LineEndCh))
        } else if is_ident_start(c) {
            let e = run_end(s, i + 1, ScanClass::IdentCont);
            (Ok(word_view(s.subrange(i, e))), e)
        } else if c == '"' {
            match str_body_end(s, i + 1) {
                Option::None => (Err(LexingErrorView::InvalidToken), i + 1),
                Option::Some(q) => if i + 1 <= q < s.len() {
                    (
                        match spec_parts(s.subrange(i + 1, q)) {
                            Ok(ps) => Ok(TokenView::String(ps)),
                            Err(e) => Err(e),
                        },
                        q + 1,
                    )
                } else {
                    (Err(LexingErrorView::InvalidToken), i + 1)
                },
            }
        } else if c == '/' {
            spec_slash(s, i)
        } else if c == '-' {
            if i + 1 < s.len() && is_digit(s[i + 1]) {
                spec_number(s, i)
            } else if i + 1 < s.len() && s[i + 1] == '=' {
                (Ok(TokenView::MinusEquals), i + 2)
            } else if i + 1 < s.len() && s[i + 1] == '>' {
                (Ok(TokenView::Arrow), i + 2)
            } else {
                (Ok(TokenView::Minus), i + 1)
            }
        } else if c == '.' {
            if i + 1 < s.len() && is_digit(s[i + 1]) {
                spec_number(s, i)
            } else if i + 1 < s.len() && s[i + 1] == '.' {
                (Ok(TokenView::Range), i + 2)
            } else {
                (Ok(TokenView::Dot), i + 1)
            }
        } else if is_digit(c) {
            spec_radix(s, i)
        } else {
            spec_op(s, i)
        }
    }
}


/// The token starting at a `/`: a doc, line or block comment, `/=`, or the
/// bare slash — an unterminated block comment is not a comment at all, so
/// the `/` stands alone.
pub open spec fn spec_slash(s: Seq<char>, i: int) -> (Result<TokenView, LexingErrorView>, int) {
    if !(0 <= i < s.len()) {
        (Err(LexingErrorView::InvalidToken), i + 1)
    } else {

        if i + 1 < s.len() && s[i + 1] == '/' {
            if i + 2 < s.len() && s[i + 2] == '/' {
                let e = run_end(s, i + 3, ScanClass::NotNl);
                (Ok(TokenView::DocComment(s.subrange(i + 3, e))), e)
            } else {
                let e = run_end(s, i + 2, ScanClass::NotNl);
                (Ok(TokenView::LineComment(s.subrange(i + 2, e))), e)
            }
        } else if i + 1 < s.len() && s[i + 1] == '*' {
            match block_end(s, i + 2) {
                Option::Some(k) => if i + 2 <= k {
                    (Ok(TokenView::BlockComment(s.subrange(i + 2, k))), k + 2)
                } else {
                    (Ok(TokenView::Slash), i + 1)
                },
                Option::None => (Ok(TokenView::Slash), i + 1),
            }
        } else if i + 1 < s.len() && s[i + 1] == '=' {
            (Ok(TokenView::SlashEquals), i + 2)
        } else {
            (Ok(TokenView::Slash), i + 1)
        }
    }
}


/// The numeric literal starting at a digit: a radix literal when a `0b`,
/// `0o` or `0x` prefix with a first digit of that radix is present,
/// otherwise a decimal integer or float.
pub open spec fn spec_radix(s: Seq<char>, i: int) -> (Result<TokenView, LexingErrorView>, int) {
    if !(0 <= i < s.len()) {
        (Err(LexingErrorView::InvalidToken), i + 1)
    } else {
        let c = s[i];

        if c == '0' && i + 2 < s.len() && s[i + 1] == 'b' && is_bin_digit(s[i + 2]) {
            let e = run_end(s, i + 3, ScanClass::BinCont);
            let v = radix_val(s.subrange(i + 2, e), 2);
            if v <= 0x7fff_ffff {
                (Ok(TokenView::Binary(v)), e)
            } else {
                (Err(LexingErrorView::InvalidBinary(s.subrange(i, e))), e)
            }
        } else if c == '0' && i + 2 < s.len() && s[i + 1] == 'o' && is_oct_digit(s[i + 2]) {
            let e = run_end(s, i + 3, ScanClass::OctCont);
            let v = radix_val(s.subrange(i + 2, e), 8);
            if v <= 0x7fff_ffff {
                (Ok(TokenView::Octal(v)), e)
            } else {
                (Err(LexingErrorView::InvalidOctal(s.subrange(i, e))), e)
            }
        } else if c == '0' && i + 2 < s.len() && s[i + 1] == 'x' && is_hex_digit(s[i + 2]) {
            let e = run_end(s, i + 3, ScanClass::HexDigit);
            let v = radix_val(s.subrange(i + 2, e), 16);
            if v <= 0x7fff_ffff {
                (Ok(TokenView::Hex(v)), e)
            } else {
                (Err(LexingErrorView::InvalidHex(s.subrange(i, e))), e)
            }
        } else {
            spec_number(s, i)
        }
    }
}

/// The operator or punctuation token starting at `i`, with multi-character
/// operators taking precedence over their prefixes; any character no rule
/// covers is a typed `InvalidToken` error.
pub open spec fn spec_op(s: Seq<char>, i: int) -> (Result<TokenView, LexingErrorView>, int) {
    if !(0 <= i < s.len()) {
        (Err(LexingErrorView::InvalidToken), i + 1)
    } else {
        let c = s[i];
        if c == ':' {
            if i + 1 < s.len() && s[i + 1] == '>' {
                (Ok(TokenView::Return), i + 2)
            } else {
                (Ok(TokenView::Colon), i + 1)
            }
        } else if c == '=' {
            if i + 1 < s.len() && s[i + 1] == '=' {
                (Ok(TokenView::EqualsEquals), i + 2)
            } else if i + 1 < s.len() && s[i + 1] == '>' {
                (Ok(TokenView::MatchReturn), i + 2)
            } else {
                (Ok(TokenView::Equals), i + 1)
            }
        } else if c == '+' {
            if i + 1 < s.len() && s[i + 1] == '=' {
                (Ok(TokenView::PlusEquals), i + 2)
            } else {
                (Ok(TokenView::Plus), i + 1)
            }
        } else if c == '*' {
            if i + 1 < s.len() && s[i + 1] == '=' {
                (Ok(TokenView::StarEquals), i + 2)
            } else {
                (Ok(TokenView::Star), i + 1)
            }
        } else if c == '%' {
            if i + 1 < s.len() && s[i + 1] == '=' {
                (Ok(TokenView::PercentEquals), i + 2)
            } else {
                (Ok(TokenView::Percent), i + 1)
            }
        } else if c == '&' {
            if i + 1 < s.len() && s[i + 1] == '&' {
                (Ok(TokenView::And), i + 2)
            } else if i + 1 < s.len() && s[i + 1] == '=' {
                (Ok(TokenView::AndEquals), i + 2)
            } else {
                (Ok(TokenView::BitAnd), i + 1)
            }
        } else if c == '|' {
            if i + 1 < s.len() && s[i + 1] == '|' {
                (Ok(TokenView::Or), i + 2)
            } else if i + 1 < s.len() && s[i + 1] == '>' {
                (Ok(TokenView::Pipe), i + 2)
            } else if i + 1 < s.len() && s[i + 1] == '=' {
                (Ok(TokenView::OrEquals), i + 2)
            } else {
                (Ok(TokenView::BitOr), i + 1)
            }
        } else if c == '^' {
            if i + 1 < s.len() && s[i + 1] == '=' {
                (Ok(TokenView::XorEquals), i + 2)
            } else {
                (Ok(TokenView::BitXor), i + 1)
            }
        } else if c == '~' {
            (Ok(TokenView::BitNot), i + 1)
        } else if c == '!' {
            if i + 1 < s.len() && s[i + 1] == '=' {
                (Ok(TokenView::NotEquals), i + 2)
            } else {
                (Ok(TokenView::Not), i + 1)
            }
        } else if c == '<' {
            if i + 1 < s.len() && s[i + 1] == '<' {
                if i + 2 < s.len() && s[i + 2] == '=' {
                    (Ok(TokenView::ShlEquals), i + 3)
                } else {
                    (Ok(TokenView::Shl), i + 2)
                }
            } else if i + 1 < s.len() && s[i + 1] == '=' {
                (Ok(TokenView::LessEquals), i + 2)
            } else {
                (Ok(TokenView::Less), i + 1)
            }
        } else if c == '>' {
            if i + 1 < s.len() && s[i + 1] == '>' {
                if i + 2 < s.len() && s[i + 2] == '=' {
                    (Ok(TokenView::ShrEquals), i + 3)
                } else {
                    (Ok(TokenView::Shr), i + 2)
                }
            } else if i + 1 < s.len() && s[i + 1] == '=' {
                (Ok(TokenView::GreaterEquals), i + 2)
            } else {
                (Ok(TokenView::Greater), i + 1)
            }
        } else if c == '(' {
            (Ok(TokenView::LParen), i + 1)
        } else if c == ')' {
            (Ok(TokenView::RParen), i + 1)
        } else if c == '[' {
            (Ok(TokenView::LBracket), i + 1)
        } else if c == ']' {
            (Ok(TokenView::RBracket), i + 1)
        } else if c == '{' {
            (Ok(TokenView::LBrace), i + 1)
        } else if c == '}' {
            (Ok(TokenView::RBrace), i + 1)
        } else if c == ',' {
            (Ok(TokenView::Comma), i + 1)
        } else {
            (Err(LexingErrorView::InvalidToken), i + 1)
        }
    }
}


/// The number starting at `i`: a float when the float shape is present
/// (longest match makes any float match strictly longer than the integer
/// match), otherwise a decimal integer. A lexeme the numeric conversion
/// rejects — a `_` separator, which the decimal converter does not take, or
/// a value outside `i32` — is a typed error carrying the lexeme.
pub open spec fn spec_number(s: Seq<char>, i: int) -> (Result<TokenView, LexingErrorView>, int) {
    let fe = float_end(s, i);
    if fe > i {
        let lex = s.subrange(i, fe);
        if lex.contains('_') {
            (Err(LexingErrorView::InvalidFloat(lex)), fe)
        } else {
            (Ok(TokenView::Float(lex)), fe)
        }
    } else {
        let di = if 0 <= i < s.len() && s[i] == '-' {
            i + 1
        } else {
            i
        };
        let e = run_end(s, di + 1, ScanClass::DecCont);
        let lex = s.subrange(i, e);
        if lex.contains('_') {
            (Err(LexingErrorView::InvalidInteger(lex)), e)
        } else {
            let mag = dec_val(s.subrange(di, e));
            if di > i {
                if mag <= 0x8000_0000 {
                    (Ok(TokenView::Int(-mag)), e)
                } else {
                    (Err(LexingErrorView::InvalidInteger(lex)), e)
                }
            } else {
                if mag <= 0x7fff_ffff {
                    (Ok(TokenView::Int(mag)), e)
                } else {
                    (Err(LexingErrorView::InvalidInteger(lex)), e)
                }
            }
        }
    }
}

/// The outcome of an interpolation whose `#` stands at `i`: the token run of
/// the interior and the position of the closing brace, or the error that
/// rejects the whole enclosing literal.
pub open spec fn spec_interp(t: Seq<char>, i: int) -> Result<
    (Seq<(int, TokenView, int)>, int),
    LexingErrorView,
>
    decreases t.len(), 1int, 0int,
{
    match brace_end(t, i + 2, 1) {
        Option::None => Err(
            LexingErrorView::UnterminatedString("Unterminated expression in string interpolation"@),
        ),
        Option::Some(e) => if i + 2 <= e < t.len() {
            match spec_lex_all(t.subrange(i + 2, e)) {
                Ok(run) => Ok((run, e)),
                Err(err) => Err(err),
            }
        } else {
            Err(
                LexingErrorView::UnterminatedString(
                    "Unterminated expression in string interpolation"@,
                ),
            )
        },
    }
}

/// The decomposition of a string literal's content from cursor `i`, with the
/// pending text run starting at `ts`.
pub open spec fn spec_parts_from(t: Seq<char>, i: int, ts: int) -> Result<
    Seq<StringPartView>,
    LexingErrorView,
>
    decreases t.len(), 2int, t.len() - i,
{
    if !(0 <= ts <= i) {
        Ok(Seq::empty())
    } else if i >= t.len() {
        Ok(
            if ts < t.len() {
                seq![StringPartView::Text(t.subrange(ts, t.len() as int))]
            } else {
                Seq::empty()
            },
        )
    } else if t[i] == '\\' {
        let flushed: Seq<StringPartView> = if i > ts {
            seq![StringPartView::Text(t.subrange(ts, i))]
        } else {
            Seq::empty()
        };
        match spec_escape(t, i + 1) {
            Err(e) => Err(e),
            Ok((p, q)) => if i < q <= t.len() {
                match spec_parts_from(t, q, q) {
                    Err(e) => Err(e),
                    Ok(rest) => Ok(flushed + seq![p] + rest),
                }
            } else {
                Ok(Seq::empty())
            },
        }
    } else if t[i] == '#' && i + 1 < t.len() && t[i + 1] == '{' {
        let flushed: Seq<StringPartView> = if i > ts {
            seq![StringPartView::Text(t.subrange(ts, i))]
        } else {
            Seq::empty()
        };
        match spec_interp(t, i) {
            Err(e) => Err(e),
            Ok((run, e)) => if i <= e && e < t.len() {
                match spec_parts_from(t, e + 1, e + 1) {
                    Err(err) => Err(err),
                    Ok(rest) => Ok(flushed + seq![StringPartView::Expression(run)] + rest),
                }
            } else {
                Ok(Seq::empty())
            },
        }
    } else {
        spec_parts_from(t, i + 1, ts)
    }
}

/// The decomposition of a whole string literal's content into parts.
pub open spec fn spec_parts(t: Seq<char>) -> Result<Seq<StringPartView>, LexingErrorView>
    decreases t.len(), 3int, 0int,
{
    spec_parts_from(t, 0, 0)
}

/// The spanned token run of a whole text, or its first error. Offsets are
/// relative to the text's own first character.
pub open spec fn spec_lex_from(u: Seq<char>, pos: int) -> Result<
    Seq<(int, TokenView, int)>,
    LexingErrorView,
>
    decreases u.len(), 1int, u.len() - pos,
{
    if !(0 <= pos <= u.len()) {
        Ok(Seq::empty())
    } else {
        let j = run_end(u, pos, ScanClass::Ws);
        if !(pos <= j < u.len()) {
            Ok(Seq::empty())
        } else {
            let (r, end) = spec_token(u, j);
            if !(j < end <= u.len()) {
                Ok(Seq::empty())
            } else {
                match r {
                    Err(e) => Err(e),
                    Ok(tv) => match spec_lex_from(u, end) {
                        Err(e) => Err(e),
                        Ok(rest) => Ok(seq![(j, tv, end)] + rest),
                    },
                }
            }
        }
    }
}

/// The spanned token run of a whole text, from its first character.
pub open spec fn spec_lex_all(u: Seq<char>) -> Result<Seq<(int, TokenView, int)>, LexingErrorView>
    decreases u.len(), 2int, 0int,
{
    spec_lex_from(u, 0)
}

/// One pull of the scanner at `pos`: whitespace is skipped, and either the
/// input is exhausted or the next token or typed error is produced with its
/// span; scanning resumes at the span's end.
#[verifier::opaque]
pub open spec fn spec_step(s: Seq<char>, pos: int) -> Option<
    (int, Result<TokenView, LexingErrorView>, int),
> {
    let j = run_end(s, pos, ScanClass::Ws);
    if j >= s.len() {
        Option::None
    } else {
        let (r, end) = spec_token(s, j);
        Option::Some((j, r, end))
    }
}

// ---------------------------------------------------------------------------
// Laws of the string decomposition
// ---------------------------------------------------------------------------

/// Text with no escape and no interpolation marker: the sub-lexer passes it
/// through as plain text.
pub open spec fn plain_text(x: Seq<char>) -> bool {
    forall|i: int| 0 <= i < x.len() ==> x[i] != '\\' && x[i] != '#'
}

/// Scanning over a plain run changes nothing but the cursor.
pub proof fn lemma_plain_run(t: Seq<char>, i: int, k: int, ts: int)
    requires
        0 <= ts <= i <= k <= t.len(),
        forall|j: int| i <= j < k ==> t[j] != '\\' && t[j] != '#',
    ensures
        spec_parts_from(t, i, ts) == spec_parts_from(t, k, ts),
    decreases k - i,
{
    if i < k {
        lemma_plain_run(t, i + 1, k, ts);
    }
}

/// Without a closing brace the brace scan finds no balance point.
pub proof fn lemma_brace_none(t: Seq<char>, j: int, depth: int)
    requires
        forall|i: int| j <= i < t.len() ==> t[i] != '}',
    ensures
        brace_end(t, j, depth) is None,
    decreases t.len() - j,
{
    if 0 <= j < t.len() {
        if t[j] == '{' {
            lemma_brace_none(t, j + 1, depth + 1);
        } else {
            lemma_brace_none(t, j + 1, depth);
        }
    }
}

/// With a brace-free interior, the scan balances exactly at the first `}`.
pub proof fn lemma_brace_first(t: Seq<char>, j: int, k: int)
    requires
        0 <= j <= k < t.len(),
        forall|i: int| j <= i < k ==> t[i] != '{' && t[i] != '}',
        t[k] == '}',
    ensures
        brace_end(t, j, 1) == Option::Some(k),
    decreases k - j,
{
    if j < k {
        lemma_brace_first(t, j + 1, k);
    }
}

/// For every escape in the fixed table, a string holding it decomposes into
/// the surrounding text, kept exactly, around the correctly decoded escape
/// character.
#[verifier::rlimit(100)]
pub proof fn lemma_escape_decodes(a: Seq<char>, e: char, b: Seq<char>)
    requires
        plain_text(a),
        plain_text(b),
        escape_decode(e) is Some,
    ensures
        ({
            let t = a + seq!['\\', e] + b;
            let pre: Seq<StringPartView> = if a.len() > 0 {
                seq![StringPartView::Text(a)]
            } else {
                Seq::empty()
            };
            let post: Seq<StringPartView> = if b.len() > 0 {
                seq![StringPartView::Text(b)]
            } else {
                Seq::empty()
            };
            let dec = escape_decode(e)->Some_0;
            spec_parts(t) == Ok::<Seq<StringPartView>, LexingErrorView>(
                pre + seq![StringPartView::EscapeChar(dec)] + post,
            )
        }),
{
    let t = a + seq!['\\', e] + b;
    let al = a.len() as int;
    assert(forall|j: int| 0 <= j < al ==> t[j] == a[j]);
    assert(t[al] == '\\');
    assert(t[al + 1] == e);
    assert(forall|j: int| al + 2 <= j < t.len() ==> t[j] == b[j - al - 2]);
    lemma_plain_run(t, 0, al, 0);
    assert(e != 'u');
    assert(spec_escape(t, al + 1) == Ok::<(StringPartView, int), LexingErrorView>(
        (StringPartView::EscapeChar(escape_decode(e)->Some_0), al + 2),
    ));
    lemma_plain_run(t, al + 2, t.len() as int, al + 2);
    let flushed: Seq<StringPartView> = if al > 0 {
        seq![StringPartView::Text(t.subrange(0, al))]
    } else {
        Seq::empty()
    };
    assert(t.subrange(0, al) =~= a);
    let tail = spec_parts_from(t, t.len() as int, al + 2);
    assert(t.subrange(al + 2, t.len() as int) =~= b);
    match spec_parts_from(t, al + 2, al + 2) {
        Ok(rest) => {
            assert(flushed + seq![StringPartView::EscapeChar(escape_decode(e)->Some_0)] + rest
                =~= (if a.len() > 0 {
                seq![StringPartView::Text(a)]
            } else {
                Seq::empty()
            }) + seq![StringPartView::EscapeChar(escape_decode(e)->Some_0)] + (if b.len() > 0 {
                seq![StringPartView::Text(b)]
            } else {
                Seq::empty()
            }));
        },
        Err(_) => {
            assert(false);
        },
    }
}

/// For every balanced `#{expr}` with a brace-free interior, the decomposition
/// carries exactly the token run of lexing `expr` on its own — and where that
/// lexing fails, the whole literal fails with that same error, leaving no
/// partial Expression part.
#[verifier::rlimit(100)]
pub proof fn lemma_interpolation_relexes(a: Seq<char>, expr: Seq<char>, b: Seq<char>)
    requires
        plain_text(a),
        plain_text(b),
        forall|i: int| 0 <= i < expr.len() ==> expr[i] != '{' && expr[i] != '}',
        forall|i: int| 0 <= i < b.len() ==> b[i] != '}',
    ensures
        ({
            let t = a + seq!['#', '{'] + expr + seq!['}'] + b;
            let pre: Seq<StringPartView> = if a.len() > 0 {
                seq![StringPartView::Text(a)]
            } else {
                Seq::empty()
            };
            let post: Seq<StringPartView> = if b.len() > 0 {
                seq![StringPartView::Text(b)]
            } else {
                Seq::empty()
            };
            match spec_lex_all(expr) {
                Ok(run) => spec_parts(t) == Ok::<Seq<StringPartView>, LexingErrorView>(
                    pre + seq![StringPartView::Expression(run)] + post,
                ),
                Err(err) => spec_parts(t) == Err::<Seq<StringPartView>, LexingErrorView>(err),
            }
        }),
{
    let t = a + seq!['#', '{'] + expr + seq!['}'] + b;
    let al = a.len() as int;
    let k = al + 2 + expr.len() as int;
    assert(forall|j: int| 0 <= j < al ==> t[j] == a[j]);
    assert(t[al] == '#');
    assert(t[al + 1] == '{');
    assert(forall|j: int| al + 2 <= j < k ==> t[j] == expr[j - al - 2]);
    assert(t[k] == '}');
    assert(forall|j: int| k + 1 <= j < t.len() ==> t[j] == b[j - k - 1]);
    lemma_plain_run(t, 0, al, 0);
    lemma_brace_first(t, al + 2, k);
    assert(t.subrange(al + 2, k) =~= expr);
    assert(t.subrange(0, al) =~= a);
    match spec_lex_all(expr) {
        Ok(run) => {
            assert(spec_interp(t, al) == Ok::<(Seq<(int, TokenView, int)>, int), LexingErrorView>(
                (run, k),
            ));
            lemma_plain_run(t, k + 1, t.len() as int, k + 1);
            assert(t.subrange(k + 1, t.len() as int) =~= b);
            let post: Seq<StringPartView> = if b.len() > 0 {
                seq![StringPartView::Text(b)]
            } else {
                Seq::empty()
            };
            assert(spec_parts_from(t, k + 1, k + 1) == Ok::<Seq<StringPartView>, LexingErrorView>(
                post,
            ));
            let flushed: Seq<StringPartView> = if al > 0 {
                seq![StringPartView::Text(t.subrange(0, al))]
            } else {
                Seq::empty()
            };
            assert(flushed + seq![StringPartView::Expression(run)] + post =~= (if a.len() > 0 {
                seq![StringPartView::Text(a)]
            } else {
                Seq::empty()
            }) + seq![StringPartView::Expression(run)] + post);
        },
        Err(_) => {},
    }
}

/// For an interpolation whose braces never rebalance — an extra `{`, or no
/// closing brace at all — the whole literal is rejected with the
/// unterminated-interpolation error; no partial Expression part is produced.
#[verifier::rlimit(100)]
pub proof fn lemma_unbalanced_interpolation(a: Seq<char>, u: Seq<char>)
    requires
        plain_text(a),
        forall|i: int| 0 <= i < u.len() ==> u[i] != '}',
    ensures
        spec_parts(a + seq!['#', '{'] + u) == Err::<Seq<StringPartView>, LexingErrorView>(
            LexingErrorView::UnterminatedString(
                "Unterminated expression in string interpolation"@,
            ),
        ),
{
    let t = a + seq!['#', '{'] + u;
    let al = a.len() as int;
    assert(forall|j: int| 0 <= j < al ==> t[j] == a[j]);
    assert(t[al] == '#');
    assert(t[al + 1] == '{');
    assert(forall|j: int| al + 2 <= j < t.len() ==> t[j] == u[j - al - 2]);
    lemma_plain_run(t, 0, al, 0);
    let e = LexingErrorView::UnterminatedString("Unterminated expression in string interpolation"@);
    assert(spec_interp(t, al) == Err::<(Seq<(int, TokenView, int)>, int), LexingErrorView>(e)) by {
        lemma_brace_none(t, al + 2, 1);
    }
    assert(spec_parts_from(t, al, 0) == Err::<Seq<StringPartView>, LexingErrorView>(e));
    assert(spec_parts(t) == spec_parts_from(t, 0, 0));
}

// ---------------------------------------------------------------------------
// Facts about the specification, used by the executable scanner's proofs
// ---------------------------------------------------------------------------

pub proof fn lemma_exp_end_lb(s: Seq<char>, f: int)
    requires
        0 <= f <= s.len(),
    ensures
        f <= exp_end(s, f) <= s.len(),
{
    if f < s.len() && (s[f] == 'e' || s[f] == 'E') {
        let g = if f + 1 < s.len() && (s[f + 1] == '+' || s[f + 1] == '-') {
            f + 2
        } else {
            f + 1
        };
        if g < s.len() && is_digit(s[g]) {
            lemma_run_end(s, g, ScanClass::DecCont);
        }
    }
}

pub proof fn lemma_dec_val_nonneg(s: Seq<char>)
    ensures
        dec_val(s) >= 0,
    decreases s.len(),
{
    if s.len() > 0 {
        lemma_dec_val_nonneg(s.drop_last());
    }
}

pub proof fn lemma_radix_val_nonneg(s: Seq<char>, base: int)
    requires
        base >= 1,
    ensures
        radix_val(s, base) >= 0,
    decreases s.len(),
{
    if s.len() > 0 {
        lemma_radix_val_nonneg(s.drop_last(), base);
    }
}

/// A decimal run's value only grows as the run extends.
pub proof fn lemma_dec_val_prefix(t: Seq<char>, u: Seq<char>)
    ensures
        dec_val(t + u) >= dec_val(t),
    decreases u.len(),
{
    if u.len() == 0 {
        assert(t + u =~= t);
    } else {
        lemma_dec_val_prefix(t, u.drop_last());
        assert((t + u).drop_last() =~= t + u.drop_last());
        lemma_dec_val_nonneg(t + u.drop_last());
    }
}

/// A radix run's value only grows as the run extends.
pub proof fn lemma_radix_val_prefix(t: Seq<char>, u: Seq<char>, base: int)
    requires
        base >= 1,
    ensures
        radix_val(t + u, base) >= radix_val(t, base),
    decreases u.len(),
{
    if u.len() == 0 {
        assert(t + u =~= t);
    } else {
        lemma_radix_val_prefix(t, u.drop_last(), base);
        assert((t + u).drop_last() =~= t + u.drop_last());
        lemma_radix_val_nonneg(t + u.drop_last(), base);
        let v = radix_val(t + u.drop_last(), base);
        assert(v * base >= v) by (nonlinear_arith)
            requires
                v >= 0,
                base >= 1,
        ;
    }
}

// ---------------------------------------------------------------------------
// The executable scanner
// ---------------------------------------------------------------------------

/// Whether `c` is in class `k`; the executable twin of `class_pred`.
fn class_check(k: ScanClass, c: char) -> (r: bool)
    ensures
        r == class_pred(k, c),
{
    match k {
        ScanClass::Ws => c == ' ' || c == '\t' || c == '\u{c}',
        ScanClass::IdentCont => c == '_' || (c >= 'a' && c <= 'z') || (c >= 'A' && c <= 'Z') || (c
            >= '0' && c <= '9'),
        ScanClass::Digit => c >= '0' && c <= '9',
        ScanClass::DecCont => (c >= '0' && c <= '9') || c == '_',
        ScanClass::BinCont => c == '0' || c == '1' || c == '_',
        ScanClass::OctCont => (c >= '0' && c <= '7') || c == '_',
        ScanClass::HexDigit => (c >= '0' && c <= '9') || (c >= 'a' && c <= 'f') || (c >= 'A' && c
            <= 'F'),
        ScanClass::NotNl => c != '\n',
        ScanClass::TrimWs => c == ' ' || c == '\t' || c == '\r' || c == '\n' || c == '\u{c}',
        ScanClass::LineEndCh => c == '\n' || c == ';',
    }
}

/// The end of the maximal run of class `k` starting at `j`.
pub(crate) fn scan_run(s: &str, j: usize, k: ScanClass) -> (e: usize)
    requires
        j <= s@.len(),
    ensures
        e as int == run_end(s@, j as int, k),
        j <= e <= s@.len(),
{
    proof {
        lemma_run_end(s@, j as int, k);
    }
    let n = s.unicode_len();
    let mut e = j;
    while e < n && class_check(k, s.get_char(e))
        invariant
            j <= e <= n,
            n == s@.len(),
            run_end(s@, j as int, k) == run_end(s@, e as int, k),
        decreases n - e,
    {
        e = e + 1;
    }
    e
}

/// The closing quote of a string literal whose body starts at `j`, if any.
fn find_str_end(s: &str, j: usize) -> (r: Option<usize>)
    requires
        j <= s@.len(),
    ensures
        match r {
            Option::Some(q) => str_body_end(s@, j as int) == Option::Some(q as int) && j <= q
                < s@.len(),
            Option::None => str_body_end(s@, j as int) is None,
        },
{
    let n = s.unicode_len();
    let mut p = j;
    loop
        invariant
            j <= p <= n,
            n == s@.len(),
            str_body_end(s@, j as int) == str_body_end(s@, p as int),
        decreases n - p,
    {
        if p >= n {
            return Option::None;
        }
        let c = s.get_char(p);
        if c == '"' {
            return Option::Some(p);
        } else if c == '\\' {
            if p + 1 < n {
                p = p + 2;
            } else {
                return Option::None;
            }
        } else if (c as u32) < 32 {
            return Option::None;
        } else {
            p = p + 1;
        }
    }
}

/// The first `*/` at or after `j`, if any.
fn find_block_end(s: &str, j: usize) -> (r: Option<usize>)
    requires
        j <= s@.len(),
    ensures
        match r {
            Option::Some(q) => block_end(s@, j as int) == Option::Some(q as int) && j <= q && q + 2
                <= s@.len(),
            Option::None => block_end(s@, j as int) is None,
        },
{
    let n = s.unicode_len();
    let mut p = j;
    loop
        invariant
            j <= p <= n,
            n == s@.len(),
            block_end(s@, j as int) == block_end(s@, p as int),
        decreases n - p,
    {
        if p >= n {
            return Option::None;
        }
        if s.get_char(p) == '*' && p + 1 < n && s.get_char(p + 1) == '/' {
            return Option::Some(p);
        }
        p = p + 1;
    }
}

/// The `}` closing an interpolation whose interior starts at `j`, if any.
pub(crate) fn find_brace_end(s: &str, j: usize) -> (r: Option<usize>)
    requires
        2 <= j <= s@.len(),
    ensures
        match r {
            Option::Some(q) => brace_end(s@, j as int, 1) == Option::Some(q as int) && j <= q
                < s@.len(),
            Option::None => brace_end(s@, j as int, 1) is None,
        },
{
    let n = s.unicode_len();
    let mut p = j;
    let mut depth: usize = 1;
    loop
        invariant
            j <= p <= n,
            n == s@.len(),
            2 <= j,
            1 <= depth,
            depth <= 1 + p - j,
            brace_end(s@, j as int, 1) == brace_end(s@, p as int, depth as int),
        decreases n - p,
    {
        if p >= n {
            return Option::None;
        }
        let c = s.get_char(p);
        if c == '{' {
            depth = depth + 1;
        } else if c == '}' {
            if depth == 1 {
                return Option::Some(p);
            }
            depth = depth - 1;
        }
        p = p + 1;
    }
}

/// The value of a hexadecimal digit.
fn digit_value(c: char) -> (d: u32)
    ensures
        is_hex_digit(c) ==> d as int == digit_val(c),
{
    if c >= '0' && c <= '9' {
        (c as u32) - ('0' as u32)
    } else if c >= 'a' && c <= 'f' {
        (c as u32) - ('a' as u32) + 10
    } else if c >= 'A' && c <= 'F' {
        (c as u32) - ('A' as u32) + 10
    } else {
        0
    }
}

/// The magnitude of the decimal run `s[a..b]`, or `None` when the run holds
/// a `_` separator (which the decimal conversion rejects) or its value is
/// beyond the largest magnitude an `i32` can carry.
fn dec_value(s: &str, a: usize, b: usize) -> (r: Option<u64>)
    requires
        a <= b <= s@.len(),
        forall|j: int| a <= j < b ==> class_pred(ScanClass::DecCont, s@[j]),
    ensures
        match r {
            Option::Some(m) => m as int == dec_val(s@.subrange(a as int, b as int)) && m
                <= 0x8000_0000 && !s@.subrange(a as int, b as int).contains('_'),
            Option::None => s@.subrange(a as int, b as int).contains('_') || dec_val(
                s@.subrange(a as int, b as int),
            ) > 0x8000_0000,
        },
{
    let mut mag: u64 = 0;
    let mut k = a;
    while k < b
        invariant
            a <= k <= b <= s@.len(),
            forall|j: int| a <= j < b ==> class_pred(ScanClass::DecCont, s@[j]),
            mag as int == dec_val(s@.subrange(a as int, k as int)),
            mag <= 0x8000_0000,
            forall|j: int| a <= j < k ==> s@[j] != '_',
        decreases b - k,
    {
        let c = s.get_char(k);
        if c == '_' {
            proof {
                assert(s@.subrange(a as int, b as int)[k - a] == '_');
            }
            return Option::None;
        }
        let d = (c as u32) - ('0' as u32);
        let new_mag: u64 = mag * 10 + (d as u64);
        proof {
            assert(s@.subrange(a as int, k + 1).drop_last() =~= s@.subrange(a as int, k as int));
            assert(s@.subrange(a as int, k + 1).last() == s@[k as int]);
        }
        if new_mag > 0x8000_0000 {
            proof {
                assert(s@.subrange(a as int, b as int) =~= s@.subrange(a as int, k + 1)
                    + s@.subrange(k + 1, b as int));
                lemma_dec_val_prefix(s@.subrange(a as int, k + 1), s@.subrange(k + 1, b as int));
            }
            return Option::None;
        }
        mag = new_mag;
        k = k + 1;
    }
    proof {
        assert forall|j: int|
            0 <= j < s@.subrange(a as int, b as int).len() implies s@.subrange(a as int, b as int)[j]
            != '_' by {
            assert(s@.subrange(a as int, b as int)[j] == s@[a + j]);
        }
    }
    Option::Some(mag)
}

/// The value of the radix run `s[a..b]` in the given base, with `_`
/// separators stripped, or `None` when the value does not fit an `i32`.
pub(crate) fn radix_value(s: &str, a: usize, b: usize, base: u64) -> (r: Option<u64>)
    requires
        a <= b <= s@.len(),
        base == 2 || base == 8 || base == 16,
        forall|j: int|
            a <= j < b ==> (s@[j] == '_' || (is_hex_digit(s@[j]) && digit_val(s@[j]) < base)),
    ensures
        match r {
            Option::Some(m) => m as int == radix_val(
                s@.subrange(a as int, b as int),
                base as int,
            ) && m <= 0x7fff_ffff,
            Option::None => radix_val(s@.subrange(a as int, b as int), base as int) > 0x7fff_ffff,
        },
{
    let mut mag: u64 = 0;
    let mut k = a;
    while k < b
        invariant
            a <= k <= b <= s@.len(),
            base == 2 || base == 8 || base == 16,
            forall|j: int|
                a <= j < b ==> (s@[j] == '_' || (is_hex_digit(s@[j]) && digit_val(s@[j]) < base)),
            mag as int == radix_val(s@.subrange(a as int, k as int), base as int),
            mag <= 0x7fff_ffff,
        decreases b - k,
    {
        let c = s.get_char(k);
        proof {
            assert(s@.subrange(a as int, k + 1).drop_last() =~= s@.subrange(a as int, k as int));
            assert(s@.subrange(a as int, k + 1).last() == s@[k as int]);
        }
        if c != '_' {
            let d = digit_value(c);
            let new_mag: u64 = mag * base + (d as u64);
            if new_mag > 0x7fff_ffff {
                proof {
                    assert(s@.subrange(a as int, b as int) =~= s@.subrange(a as int, k + 1)
                        + s@.subrange(k + 1, b as int));
                    lemma_radix_val_prefix(
                        s@.subrange(a as int, k + 1),
                        s@.subrange(k + 1, b as int),
                        base as int,
                    );
                }
                return Option::None;
            }
            mag = new_mag;
        }
        k = k + 1;
    }
    Option::Some(mag)
}

/// Whether the run `s[a..b]` holds a `_` separator.
fn find_underscore(s: &str, a: usize, b: usize) -> (r: bool)
    requires
        a <= b <= s@.len(),
    ensures
        r == s@.subrange(a as int, b as int).contains('_'),
{
    let mut k = a;
    while k < b
        invariant
            a <= k <= b <= s@.len(),
            forall|j: int| a <= j < k ==> s@[j] != '_',
        decreases b - k,
    {
        if s.get_char(k) == '_' {
            proof {
                assert(s@.subrange(a as int, b as int)[k - a] == '_');
            }
            return true;
        }
        k = k + 1;
    }
    proof {
        assert forall|j: int|
            0 <= j < s@.subrange(a as int, b as int).len() implies s@.subrange(a as int, b as int)[j]
            != '_' by {
            assert(s@.subrange(a as int, b as int)[j] == s@[a + j]);
        }
    }
    false
}

/// The keyword or identifier token whose lexeme is `s[i..e]`.
fn word_token(s: &str, i: usize, e: usize) -> (t: Token)
    requires
        i < e <= s@.len(),
    ensures
        token_view(t) == word_view(s@.subrange(i as int, e as int)),
{
    let w = String::from_str(s.substring_char(i, e));
    if w == String::from_str("_") {
        Token::Wildcard
    } else if w == String::from_str("fn") {
        Token::Fn
    } else if w == String::from_str("let") {
        Token::Let
    } else if w == String::from_str("struct") {
        Token::Struct
    } else if w == String::from_str("if") {
        Token::If
    } else if w == String::from_str("elsif") {
        Token::Elsif
    } else if w == String::from_str("else") {
        Token::Else
    } else if w == String::from_str("spawn") {
        Token::Spawn
    } else if w == String::from_str("shared") {
        Token::Shared
    } else if w == String::from_str("with") {
        Token::With
    } else if w == String::from_str("atomic") {
        Token::Atomic
    } else if w == String::from_str("match") {
        Token::Match
    } else if w == String::from_str("lazy") {
        Token::Lazy
    } else if w == String::from_str("mut") {
        Token::Mut
    } else if w == String::from_str("inf") {
        Token::Inf
    } else if w == String::from_str("for") {
        Token::For
    } else if w == String::from_str("in") {
        Token::In
    } else if w == String::from_str("while") {
        Token::While
    } else if w == String::from_str("break") {
        Token::Break
    } else if w == String::from_str("true") {
        Token::True
    } else if w == String::from_str("false") {
        Token::False
    } else if w == String::from_str("use") {
        Token::Use
    } else if w == String::from_str("async") {
        Token::Async
    } else if w == String::from_str("await") {
        Token::Await
    } else if w == String::from_str("enum") {
        Token::Enum
    } else if w == String::from_str("type") {
        Token::TypeAlias
    } else if w == String::from_str("as") {
        Token::As
    } else if w == String::from_str("return") {
        Token::Return
    } else {
        Token::Ident(w)
    }
}

/// One past the float lexeme starting at `i`, or `i` when no float starts
/// there.
fn float_end_ex(s: &str, i: usize) -> (fe: usize)
    requires
        i < s@.len(),
    ensures
        fe as int == float_end(s@, i as int),
        fe == i || i < fe,
        fe <= s@.len(),
{
    let n = s.unicode_len();
    let j = if s.get_char(i) == '-' {
        i + 1
    } else {
        i
    };
    let k: usize;
    if j < n && s.get_char(j) == '0' {
        k = j + 1;
    } else if j < n && {
        let cj = s.get_char(j);
        cj >= '0' && cj <= '9'
    } {
        k = scan_run(s, j, ScanClass::Digit);
    } else {
        k = j;
    }
    proof {
        assert(k as int == int_part_end(s@, j as int));
        if j < s@.len() && is_digit(s@[j as int]) {
            lemma_run_end(s@, j as int, ScanClass::Digit);
        }
    }
    if j > i && k == j {
        return i;
    }
    if k < n && s.get_char(k) == '.' && k + 1 < n && {
        let ck = s.get_char(k + 1);
        ck >= '0' && ck <= '9'
    } {
        let f = scan_run(s, k + 1, ScanClass::DecCont);
        if f < n && {
            let cf = s.get_char(f);
            cf == 'e' || cf == 'E'
        } {
            let g = if f + 1 < n && {
                let cg = s.get_char(f + 1);
                cg == '+' || cg == '-'
            } {
                f + 2
            } else {
                f + 1
            };
            if g < n && {
                let cg2 = s.get_char(g);
                cg2 >= '0' && cg2 <= '9'
            } {
                let x = scan_run(s, g, ScanClass::DecCont);
                x
            } else {
                f
            }
        } else {
            f
        }
    } else {
        i
    }
}

/// The decimal integer or float starting at `i`, by the longest-match rule.
fn number_at(s: &str, i: usize) -> (r: (Result<Token, LexingError>, usize))
    requires
        i < s@.len(),
        is_digit(s@[i as int]) || ((s@[i as int] == '-' || s@[i as int] == '.') && i + 1 < s@.len()
            && is_digit(s@[i as int + 1])),
    ensures
        ({
            let (rv, end) = spec_number(s@, i as int);
            res_view(r.0) == rv && r.1 as int == end && i < r.1 <= s@.len()
        }),
{
    let n = s.unicode_len();
    let fe = float_end_ex(s, i);
    if fe > i {
        let lex = String::from_str(s.substring_char(i, fe));
        if find_underscore(s, i, fe) {
            (Err(LexingError::InvalidFloat(lex)), fe)
        } else {
            (Ok(Token::Float(lex)), fe)
        }
    } else {
        let di = if s.get_char(i) == '-' {
            i + 1
        } else {
            i
        };
        proof {
            if s@[i as int] == '.' {
                lemma_run_end(s@, i + 1, ScanClass::DecCont);
                lemma_exp_end_lb(s@, run_end(s@, i + 1, ScanClass::DecCont));
                assert(float_end(s@, i as int) > i);
            }
        }
        let e = scan_run(s, di + 1, ScanClass::DecCont);
        proof {
            lemma_run_end(s@, di + 1, ScanClass::DecCont);
        }
        let lex = String::from_str(s.substring_char(i, e));
        proof {
            // a `_` separator sits after the sign exactly when it sits in the
            // whole lexeme
            let li = s@.subrange(i as int, e as int);
            let ld = s@.subrange(di as int, e as int);
            if di > i {
                assert(forall|k: int| 0 <= k < ld.len() ==> ld[k] == li[k + 1]);
                if li.contains('_') {
                    let k = choose|k: int| 0 <= k < li.len() && li[k] == '_';
                    assert(li[0] == s@[i as int]);
                    assert(ld[k - 1] == '_');
                    assert(ld.contains('_'));
                }
                if ld.contains('_') {
                    let k = choose|k: int| 0 <= k < ld.len() && ld[k] == '_';
                    assert(li[k + 1] == '_');
                    assert(li.contains('_'));
                }
            } else {
                assert(li =~= ld);
            }
        }
        match dec_value(s, di, e) {
            Option::None => (Err(LexingError::InvalidInteger(lex)), e),
            Option::Some(m) => {
                if di > i {
                    let v: i32 = if m == 0x8000_0000 {
                        i32::MIN
                    } else {
                        -(m as i32)
                    };
                    (Ok(Token::Int(v)), e)
                } else {
                    if m > 0x7fff_ffff {
                        (Err(LexingError::InvalidInteger(lex)), e)
                    } else {
                        (Ok(Token::Int(m as i32)), e)
                    }
                }
            },
        }
    }
}

/// The token or typed error starting exactly at position `i`, and one past
/// its end: the scanner's single step, proved to follow `spec_token`.
#[verifier::rlimit(100)]
#[verifier::spinoff_prover]
pub(crate) fn token_at(s: &str, i: usize) -> (r: (Result<Token, LexingError>, usize))
    requires
        i < s@.len(),
    ensures
        ({
            let (rv, end) = spec_token(s@, i as int);
            res_view(r.0) == rv && r.1 as int == end && i < r.1 <= s@.len()
        }),
    decreases s@.len(), 0int,
{
    let n = s.unicode_len();
    let c = s.get_char(i);
    if c == '\n' || c == ';' {
        let e = scan_run(s, i + 1, ScanClass::LineEndCh);
        (Ok(Token::LineEnd), e)
    } else if c == '_' || (c >= 'a' && c <= 'z') || (c >= 'A' && c <= 'Z') {
        let e = scan_run(s, i + 1, ScanClass::IdentCont);
        (Ok(word_token(s, i, e)), e)
    } else if c == '"' {
        match find_str_end(s, i + 1) {
            Option::None => (Err(LexingError::InvalidToken), i + 1),
            Option::Some(q) => {
                let interior = s.substring_char(i + 1, q);
                match crate::lexer::str_litteral::process_string_literal(interior) {
                    Ok(parts) => (Ok(Token::String(parts)), q + 1),
                    Err(e) => (Err(e), q + 1),
                }
            },
        }
    } else if c == '/' {
        slash_at(s, i)
    } else if c == '-' {
        if i + 1 < n && {
            let c1 = s.get_char(i + 1);
            c1 >= '0' && c1 <= '9'
        } {
            number_at(s, i)
        } else if i + 1 < n && s.get_char(i + 1) == '=' {
            (Ok(Token::MinusEquals), i + 2)
        } else if i + 1 < n && s.get_char(i + 1) == '>' {
            (Ok(Token::Arrow), i + 2)
        } else {
            (Ok(Token::Minus), i + 1)
        }
    } else if c == '.' {
        if i + 1 < n && {
            let c1 = s.get_char(i + 1);
            c1 >= '0' && c1 <= '9'
        } {
            number_at(s, i)
        } else if i + 1 < n && s.get_char(i + 1) == '.' {
            (Ok(Token::Range), i + 2)
        } else {
            (Ok(Token::Dot), i + 1)
        }
    } else if c >= '0' && c <= '9' {
        radix_at(s, i)
    } else {
        op_at(s, i)
    }
}


/// The token starting at a `/`; the executable twin of `spec_slash`.
fn slash_at(s: &str, i: usize) -> (r: (Result<Token, LexingError>, usize))
    requires
        i < s@.len(),
        s@[i as int] == '/',
    ensures
        ({
            let (rv, end) = spec_slash(s@, i as int);
            res_view(r.0) == rv && r.1 as int == end && i < r.1 <= s@.len()
        }),
{
    let n = s.unicode_len();

        if i + 1 < n && s.get_char(i + 1) == '/' {
            if i + 2 < n && s.get_char(i + 2) == '/' {
                let e = scan_run(s, i + 3, ScanClass::NotNl);
                (Ok(Token::DocComment(String::from_str(s.substring_char(i + 3, e)))), e)
            } else {
                let e = scan_run(s, i + 2, ScanClass::NotNl);
                (Ok(Token::LineComment(String::from_str(s.substring_char(i + 2, e)))), e)
            }
        } else if i + 1 < n && s.get_char(i + 1) == '*' {
            match find_block_end(s, i + 2) {
                Option::Some(k) => (
                    Ok(Token::BlockComment(String::from_str(s.substring_char(i + 2, k)))),
                    k + 2,
                ),
                Option::None => (Ok(Token::Slash), i + 1),
            }
        } else if i + 1 < n && s.get_char(i + 1) == '=' {
            (Ok(Token::SlashEquals), i + 2)
        } else {
            (Ok(Token::Slash), i + 1)
        }
}

/// The numeric literal starting at a digit; the executable twin of
/// `spec_radix`.
fn radix_at(s: &str, i: usize) -> (r: (Result<Token, LexingError>, usize))
    requires
        i < s@.len(),
        is_digit(s@[i as int]),
    ensures
        ({
            let (rv, end) = spec_radix(s@, i as int);
            res_view(r.0) == rv && r.1 as int == end && i < r.1 <= s@.len()
        }),
{
    let n = s.unicode_len();
    let c = s.get_char(i);

        if c == '0' && n - i > 2 && s.get_char(i + 1) == 'b' && {
            let c2 = s.get_char(i + 2);
            c2 == '0' || c2 == '1'
        } {
            let e = scan_run(s, i + 3, ScanClass::BinCont);
            proof {
                lemma_run_end(s@, i + 3, ScanClass::BinCont);
            }
            match radix_value(s, i + 2, e, 2) {
                Option::Some(m) => (Ok(Token::Binary(m as i32)), e),
                Option::None => (
                    Err(LexingError::InvalidBinary(String::from_str(s.substring_char(i, e)))),
                    e,
                ),
            }
        } else if c == '0' && n - i > 2 && s.get_char(i + 1) == 'o' && {
            let c2 = s.get_char(i + 2);
            c2 >= '0' && c2 <= '7'
        } {
            let e = scan_run(s, i + 3, ScanClass::OctCont);
            proof {
                lemma_run_end(s@, i + 3, ScanClass::OctCont);
            }
            match radix_value(s, i + 2, e, 8) {
                Option::Some(m) => (Ok(Token::Octal(m as i32)), e),
                Option::None => (
                    Err(LexingError::InvalidOctal(String::from_str(s.substring_char(i, e)))),
                    e,
                ),
            }
        } else if c == '0' && n - i > 2 && s.get_char(i + 1) == 'x' && {
            let c2 = s.get_char(i + 2);
            (c2 >= '0' && c2 <= '9') || (c2 >= 'a' && c2 <= 'f') || (c2 >= 'A' && c2 <= 'F')
        } {
            let e = scan_run(s, i + 3, ScanClass::HexDigit);
            proof {
                lemma_run_end(s@, i + 3, ScanClass::HexDigit);
            }
            match radix_value(s, i + 2, e, 16) {
                Option::Some(m) => (Ok(Token::Hex(m as i32)), e),
                Option::None => (
                    Err(LexingError::InvalidHex(String::from_str(s.substring_char(i, e)))),
                    e,
                ),
            }
        } else {
            number_at(s, i)
        }
}

/// The operator or punctuation token starting at `i`; the executable twin of
/// `spec_op`.
fn op_at(s: &str, i: usize) -> (r: (Result<Token, LexingError>, usize))
    requires
        i < s@.len(),
    ensures
        ({
            let (rv, end) = spec_op(s@, i as int);
            res_view(r.0) == rv && r.1 as int == end && i < r.1 <= s@.len()
        }),
{
    let n = s.unicode_len();
    let c = s.get_char(i);
    if c == ':' {
        if i + 1 < n && s.get_char(i + 1) == '>' {
            (Ok(Token::Return), i + 2)
        } else {
            (Ok(Token::Colon), i + 1)
        }
    } else if c == '=' {
        if i + 1 < n && s.get_char(i + 1) == '=' {
            (Ok(Token::EqualsEquals), i + 2)
        } else if i + 1 < n && s.get_char(i + 1) == '>' {
            (Ok(Token::MatchReturn), i + 2)
        } else {
            (Ok(Token::Equals), i + 1)
        }
    } else if c == '+' {
        if i + 1 < n && s.get_char(i + 1) == '=' {
            (Ok(Token::PlusEquals), i + 2)
        } else {
            (Ok(Token::Plus), i + 1)
        }
    } else if c == '*' {
        if i + 1 < n && s.get_char(i + 1) == '=' {
            (Ok(Token::StarEquals), i + 2)
        } else {
            (Ok(Token::Star), i + 1)
        }
    } else if c == '%' {
        if i + 1 < n && s.get_char(i + 1) == '=' {
            (Ok(Token::PercentEquals), i + 2)
        } else {
            (Ok(Token::Percent), i + 1)
        }
    } else if c == '&' {
        if i + 1 < n && s.get_char(i + 1) == '&' {
            (Ok(Token::And), i + 2)
        } else if i + 1 < n && s.get_char(i + 1) == '=' {
            (Ok(Token::AndEquals), i + 2)
        } else {
            (Ok(Token::BitAnd), i + 1)
        }
    } else if c == '|' {
        if i + 1 < n && s.get_char(i + 1) == '|' {
            (Ok(Token::Or), i + 2)
        } else if i + 1 < n && s.get_char(i + 1) == '>' {
            (Ok(Token::Pipe), i + 2)
        } else if i + 1 < n && s.get_char(i + 1) == '=' {
            (Ok(Token::OrEquals), i + 2)
        } else {
            (Ok(Token::BitOr), i + 1)
        }
    } else if c == '^' {
        if i + 1 < n && s.get_char(i + 1) == '=' {
            (Ok(Token::XorEquals), i + 2)
        } else {
            (Ok(Token::BitXor), i + 1)
        }
    } else if c == '~' {
        (Ok(Token::BitNot), i + 1)
    } else if c == '!' {
        if i + 1 < n && s.get_char(i + 1) == '=' {
            (Ok(Token::NotEquals), i + 2)
        } else {
            (Ok(Token::Not), i + 1)
        }
    } else if c == '<' {
        if i + 1 < n && s.get_char(i + 1) == '<' {
            if i + 2 < n && s.get_char(i + 2) == '=' {
                (Ok(Token::ShlEquals), i + 3)
            } else {
                (Ok(Token::Shl), i + 2)
            }
        } else if i + 1 < n && s.get_char(i + 1) == '=' {
            (Ok(Token::LessEquals), i + 2)
        } else {
            (Ok(Token::Less), i + 1)
        }
    } else if c == '>' {
        if i + 1 < n && s.get_char(i + 1) == '>' {
            if i + 2 < n && s.get_char(i + 2) == '=' {
                (Ok(Token::ShrEquals), i + 3)
            } else {
                (Ok(Token::Shr), i + 2)
            }
        } else if i + 1 < n && s.get_char(i + 1) == '=' {
            (Ok(Token::GreaterEquals), i + 2)
        } else {
            (Ok(Token::Greater), i + 1)
        }
    } else if c == '(' {
        (Ok(Token::LParen), i + 1)
    } else if c == ')' {
        (Ok(Token::RParen), i + 1)
    } else if c == '[' {
        (Ok(Token::LBracket), i + 1)
    } else if c == ']' {
        (Ok(Token::RBracket), i + 1)
    } else if c == '{' {
        (Ok(Token::LBrace), i + 1)
    } else if c == '}' {
        (Ok(Token::RBrace), i + 1)
    } else if c == ',' {
        (Ok(Token::Comma), i + 1)
    } else {
        (Err(LexingError::InvalidToken), i + 1)
    }
}

} // verus!
