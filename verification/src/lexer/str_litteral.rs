//! Decoded pieces of a string literal.
//!
//! The scanner hands the text between a literal's quotes to the
//! interpolation sub-lexer, which splits it into an ordered run of parts:
//! raw text, decoded escapes, decoded Unicode escapes, and interpolated
//! expressions, each expression carrying the token run of its interior.

use vstd::prelude::*;

use crate::lexer::scan::{
    ScanClass, is_scalar_value, lemma_run_end, run_end, spec_escape, spec_interp, spec_lex_all,
    spec_lex_from, spec_parts, spec_parts_from, spec_token, spec_unicode,
};
use crate::lexer::tokens::{
    LexingError, LexingErrorView, Token, TokenView, err_view, push_char, token_view,
};

verus! {

/// One decoded piece of a string literal's content.
#[derive(Debug)]
pub enum StringPart {
    /// A run of ordinary characters, kept exactly as written.
    Text(String),
    /// A character written as a simple escape (`\n`, `\t`, ...), decoded.
    EscapeChar(char),
    /// A character written as a `\u{...}` escape, decoded.
    Unicode(char),
    /// An interpolated `#{...}` expression: the token run of its interior,
    /// with offsets relative to the interior's first character.
    Expression(Vec<(usize, Token, usize)>),
}

/// The mathematical model of a `StringPart`. A decoded Unicode escape is
/// modelled by its scalar value.
pub enum StringPartView {
    Text(Seq<char>),
    EscapeChar(char),
    Unicode(int),
    Expression(Seq<(int, TokenView, int)>),
}

/// Model of one spanned token of an interpolated expression's run.
pub open spec fn spanned_view(t: (usize, Token, usize)) -> (int, TokenView, int)
    decreases t,
{
    (t.0 as int, token_view(t.1), t.2 as int)
}

/// Model of a run of spanned tokens.
pub open spec fn spanned_views(v: Seq<(usize, Token, usize)>) -> Seq<(int, TokenView, int)>
    decreases v,
{
    if v.len() == 0 {
        Seq::empty()
    } else {
        spanned_views(v.drop_last()).push(spanned_view(v.last()))
    }
}

/// Model of one string part.
pub open spec fn part_view(p: StringPart) -> StringPartView
    decreases p,
{
    match p {
        StringPart::Text(t) => StringPartView::Text(t@),
        StringPart::EscapeChar(c) => StringPartView::EscapeChar(c),
        StringPart::Unicode(c) => StringPartView::Unicode(c as int),
        StringPart::Expression(toks) => StringPartView::Expression(spanned_views(toks@)),
    }
}

/// Model of an ordered run of string parts.
pub open spec fn parts_views(v: Seq<StringPart>) -> Seq<StringPartView>
    decreases v,
{
    if v.len() == 0 {
        Seq::empty()
    } else {
        parts_views(v.drop_last()).push(part_view(v.last()))
    }
}

pub proof fn lemma_parts_views(v: Seq<StringPart>)
    ensures
        parts_views(v).len() == v.len(),
        forall|i: int| 0 <= i < v.len() ==> parts_views(v)[i] == part_view(v[i]),
    decreases v.len(),
{
    if v.len() > 0 {
        lemma_parts_views(v.drop_last());
    }
}

pub proof fn lemma_parts_views_push(v: Seq<StringPart>, x: StringPart)
    ensures
        parts_views(v.push(x)) == parts_views(v).push(part_view(x)),
{
    assert(v.push(x).drop_last() =~= v);
    assert(v.push(x).last() == x);
}

pub proof fn lemma_spanned_views(v: Seq<(usize, Token, usize)>)
    ensures
        spanned_views(v).len() == v.len(),
        forall|i: int| 0 <= i < v.len() ==> spanned_views(v)[i] == spanned_view(v[i]),
    decreases v.len(),
{
    if v.len() > 0 {
        lemma_spanned_views(v.drop_last());
    }
}

/// Whether two spanned token runs have the same model, decided pairwise.
pub(crate) fn spanned_eq(a: &Vec<(usize, Token, usize)>, b: &Vec<(usize, Token, usize)>) -> (r:
    bool)
    ensures
        r == (spanned_views(a@) == spanned_views(b@)),
    decreases a,
{
    proof {
        lemma_spanned_views(a@);
        lemma_spanned_views(b@);
    }
    if a.len() != b.len() {
        proof {
            assert(spanned_views(a@).len() != spanned_views(b@).len());
        }
        return false;
    }
    let n = a.len();
    let mut i: usize = 0;
    while i < n
        invariant
            n == a@.len() == b@.len(),
            0 <= i <= n,
            forall|j: int| 0 <= j < i ==> spanned_views(a@)[j] == spanned_views(b@)[j],
            spanned_views(a@).len() == a@.len(),
            spanned_views(b@).len() == b@.len(),
            forall|j: int| 0 <= j < a@.len() ==> spanned_views(a@)[j] == spanned_view(a@[j]),
            forall|j: int| 0 <= j < b@.len() ==> spanned_views(b@)[j] == spanned_view(b@[j]),
        decreases n - i,
    {
        let (s0, t0, e0) = &a[i];
        let (s1, t1, e1) = &b[i];
        if *s0 != *s1 || *e0 != *e1 || !t0.eq(t1) {
            proof {
                assert(spanned_views(a@)[i as int] != spanned_views(b@)[i as int]);
            }
            return false;
        }
        i = i + 1;
    }
    proof {
        assert(spanned_views(a@) =~= spanned_views(b@));
    }
    true
}

/// Whether two runs of string parts have the same model, decided pairwise.
pub(crate) fn parts_eq(a: &Vec<StringPart>, b: &Vec<StringPart>) -> (r: bool)
    ensures
        r == (parts_views(a@) == parts_views(b@)),
    decreases a,
{
    proof {
        lemma_parts_views(a@);
        lemma_parts_views(b@);
    }
    if a.len() != b.len() {
        proof {
            assert(parts_views(a@).len() != parts_views(b@).len());
        }
        return false;
    }
    let n = a.len();
    let mut i: usize = 0;
    while i < n
        invariant
            n == a@.len() == b@.len(),
            0 <= i <= n,
            forall|j: int| 0 <= j < i ==> parts_views(a@)[j] == parts_views(b@)[j],
            parts_views(a@).len() == a@.len(),
            parts_views(b@).len() == b@.len(),
            forall|j: int| 0 <= j < a@.len() ==> parts_views(a@)[j] == part_view(a@[j]),
            forall|j: int| 0 <= j < b@.len() ==> parts_views(b@)[j] == part_view(b@[j]),
        decreases n - i,
    {
        if !a[i].eq(&b[i]) {
            proof {
                assert(parts_views(a@)[i as int] != parts_views(b@)[i as int]);
            }
            return false;
        }
        i = i + 1;
    }
    proof {
        assert(parts_views(a@) =~= parts_views(b@));
    }
    true
}

impl PartialEq for StringPart {
    /// Two parts are equal exactly when their models are.
    fn eq(&self, other: &Self) -> (r: bool)
        decreases self,
    {
        match (self, other) {
            (StringPart::Text(a), StringPart::Text(b)) => {
                let r = *a == *b;
                assert(r == (part_view(*self) == part_view(*other)));
                r
            },
            (StringPart::EscapeChar(a), StringPart::EscapeChar(b)) => {
                let r = *a == *b;
                assert(r == (part_view(*self) == part_view(*other)));
                r
            },
            (StringPart::Unicode(a), StringPart::Unicode(b)) => {
                let r = *a == *b;
                assert(r == (part_view(*self) == part_view(*other)));
                r
            },
            (StringPart::Expression(a), StringPart::Expression(b)) => {
                let r = spanned_eq(a, b);
                assert(r == (part_view(*self) == part_view(*other)));
                r
            },
            _ => {
                assert(part_view(*self) != part_view(*other));
                false
            },
        }
    }
}

impl vstd::std_specs::cmp::PartialEqSpecImpl for StringPart {
    open spec fn obeys_eq_spec() -> bool {
        true
    }

    open spec fn eq_spec(&self, other: &Self) -> bool {
        part_view(*self) == part_view(*other)
    }
}

/// A copy of a spanned token run, equal to the original in model.
pub(crate) fn clone_spanned(v: &Vec<(usize, Token, usize)>) -> (r: Vec<(usize, Token, usize)>)
    ensures
        spanned_views(r@) == spanned_views(v@),
    decreases v,
{
    proof {
        lemma_spanned_views(v@);
    }
    let mut r: Vec<(usize, Token, usize)> = Vec::new();
    let n = v.len();
    let mut i: usize = 0;
    while i < n
        invariant
            n == v@.len(),
            0 <= i <= n,
            r@.len() == i,
            forall|j: int| 0 <= j < i ==> spanned_view(r@[j]) == spanned_view(v@[j]),
        decreases n - i,
    {
        let (s0, t0, e0) = &v[i];
        r.push((*s0, t0.clone(), *e0));
        i = i + 1;
    }
    proof {
        lemma_spanned_views(r@);
        assert(spanned_views(r@) =~= spanned_views(v@));
    }
    r
}

/// A copy of a run of string parts, equal to the original in model.
pub(crate) fn clone_parts(v: &Vec<StringPart>) -> (r: Vec<StringPart>)
    ensures
        parts_views(r@) == parts_views(v@),
    decreases v,
{
    proof {
        lemma_parts_views(v@);
    }
    let mut r: Vec<StringPart> = Vec::new();
    let n = v.len();
    let mut i: usize = 0;
    while i < n
        invariant
            n == v@.len(),
            0 <= i <= n,
            r@.len() == i,
            forall|j: int| 0 <= j < i ==> part_view(r@[j]) == part_view(v@[j]),
        decreases n - i,
    {
        r.push(v[i].clone());
        i = i + 1;
    }
    proof {
        lemma_parts_views(r@);
        assert(parts_views(r@) =~= parts_views(v@));
    }
    r
}

impl Clone for StringPart {
    /// A copy equal to the original in model.
    fn clone(&self) -> (r: Self)
        ensures
            part_view(r) == part_view(*self),
        decreases self,
    {
        match self {
            StringPart::Text(t) => StringPart::Text(t.clone()),
            StringPart::EscapeChar(c) => StringPart::EscapeChar(*c),
            StringPart::Unicode(c) => StringPart::Unicode(*c),
            StringPart::Expression(toks) => StringPart::Expression(clone_spanned(toks)),
        }
    }
}

// ---------------------------------------------------------------------------
// The interpolation sub-lexer
// ---------------------------------------------------------------------------

/// Model of an escape-handling result.
pub open spec fn escape_res_view(r: Result<(StringPart, usize), LexingError>) -> Result<
    (StringPartView, int),
    LexingErrorView,
> {
    match r {
        Ok((p, q)) => Ok((part_view(p), q as int)),
        Err(e) => Err(err_view(e)),
    }
}

/// Model of a lexed token run.
pub open spec fn run_res_view(r: Result<Vec<(usize, Token, usize)>, LexingError>) -> Result<
    Seq<(int, TokenView, int)>,
    LexingErrorView,
> {
    match r {
        Ok(v) => Ok(spanned_views(v@)),
        Err(e) => Err(err_view(e)),
    }
}

/// Model of a string decomposition result.
pub open spec fn parts_res_view(r: Result<Vec<StringPart>, LexingError>) -> Result<
    Seq<StringPartView>,
    LexingErrorView,
> {
    match r {
        Ok(v) => Ok(parts_views(v@)),
        Err(e) => Err(err_view(e)),
    }
}

/// Relies on char::from_u32: a code point converts exactly when it is a
/// Unicode scalar value, and the converted character has that value.
pub assume_specification[ char::from_u32 ](v: u32) -> (r: Option<char>)
    ensures
        match r {
            Option::Some(c) => c as int == v as int && is_scalar_value(v as int),
            Option::None => !is_scalar_value(v as int),
        },
;

/// Decodes the escape whose backslash stands just before position `i`.
fn process_escape_sequence(input: &str, i: usize) -> (r: Result<(StringPart, usize), LexingError>)
    requires
        i <= input@.len(),
    ensures
        escape_res_view(r) == spec_escape(input@, i as int),
        r matches Ok(p) ==> i < p.1 <= input@.len(),
{
    let n = input.unicode_len();
    if i >= n {
        return Err(
            LexingError::UnterminatedString(
                String::from_str("String terminated with escape character"),
            ),
        );
    }
    let c = input.get_char(i);
    if c == 'n' {
        Ok((StringPart::EscapeChar('\n'), i + 1))
    } else if c == 'r' {
        Ok((StringPart::EscapeChar('\r'), i + 1))
    } else if c == 't' {
        Ok((StringPart::EscapeChar('\t'), i + 1))
    } else if c == '\\' {
        Ok((StringPart::EscapeChar('\\'), i + 1))
    } else if c == '0' {
        Ok((StringPart::EscapeChar('\u{0}'), i + 1))
    } else if c == '"' {
        Ok((StringPart::EscapeChar('"'), i + 1))
    } else if c == '\'' {
        Ok((StringPart::EscapeChar('\''), i + 1))
    } else if c == '#' {
        Ok((StringPart::EscapeChar('#'), i + 1))
    } else if c == 'u' {
        process_unicode_escape(input, i + 1)
    } else {
        let mut msg = String::from_str("Unknown escape sequence: \\");
        push_char(&mut msg, c);
        Err(LexingError::UnterminatedString(msg))
    }
}

/// Decodes the `\u{...}` escape whose text starts at `i` (just after the
/// `u`): one to six hex digits inside braces, naming a Unicode scalar value.
fn process_unicode_escape(input: &str, i: usize) -> (r: Result<(StringPart, usize), LexingError>)
    requires
        i <= input@.len(),
    ensures
        escape_res_view(r) == spec_unicode(input@, i as int),
        r matches Ok(p) ==> i < p.1 <= input@.len(),
{
    let n = input.unicode_len();
    if i >= n {
        return Err(
            LexingError::UnterminatedString(String::from_str("Incomplete Unicode escape sequence")),
        );
    }
    let c0 = input.get_char(i);
    if c0 != '{' {
        let mut msg = String::from_str("Invalid start of Unicode escape sequence: ");
        push_char(&mut msg, c0);
        return Err(LexingError::UnterminatedString(msg));
    }
    let h = crate::lexer::scan::scan_run(input, i + 1, ScanClass::HexDigit);
    proof {
        lemma_run_end(input@, i + 1, ScanClass::HexDigit);
    }
    if h >= n {
        return Err(
            LexingError::UnterminatedString(String::from_str("Incomplete Unicode escape sequence")),
        );
    }
    let ch = input.get_char(h);
    if ch != '}' {
        let mut msg = String::from_str("Invalid character in Unicode escape: ");
        push_char(&mut msg, ch);
        return Err(LexingError::UnterminatedString(msg));
    }
    if h - (i + 1) < 1 || h - (i + 1) > 6 {
        return Err(
            LexingError::UnterminatedString(
                String::from_str("Unicode escape must have 1-6 hex digits"),
            ),
        );
    }
    match crate::lexer::scan::radix_value(input, i + 1, h, 16) {
        Option::None => Err(
            LexingError::UnterminatedString(String::from_str("Invalid Unicode code point")),
        ),
        Option::Some(m) => match char::from_u32(m as u32) {
            Option::Some(ch) => {
                proof {
                    assert(m as u32 as int == m as int);
                }
                Ok((StringPart::Unicode(ch), h + 1))
            },
            Option::None => Err(
                LexingError::UnterminatedString(String::from_str("Invalid Unicode code point")),
            ),
        },
    }
}

/// Lexes a whole interpolated interior into its spanned token run, with
/// offsets relative to the interior; the run's first error rejects it whole.
#[verifier::rlimit(100)]
pub(crate) fn parse_interpolated_expression(expr: &str) -> (r: Result<
    Vec<(usize, Token, usize)>,
    LexingError,
>)
    ensures
        run_res_view(r) == spec_lex_all(expr@),
    decreases expr@.len(), 1int,
{
    let ghost u = expr@;
    let n = expr.unicode_len();
    let mut toks: Vec<(usize, Token, usize)> = Vec::new();
    let mut pos: usize = 0;
    loop
        invariant
            pos <= n,
            n == u.len(),
            expr@ == u,
            spec_lex_all(u) == match spec_lex_from(u, pos as int) {
                Ok(rest) => Ok::<_, LexingErrorView>(spanned_views(toks@) + rest),
                Err(e) => Err(e),
            },
        decreases n - pos,
    {
        proof {
            lemma_run_end(u, pos as int, ScanClass::Ws);
        }
        let j = crate::lexer::scan::scan_run(expr, pos, ScanClass::Ws);
        if j >= n {
            proof {
                assert(spanned_views(toks@) + Seq::<(int, TokenView, int)>::empty() =~= spanned_views(
                    toks@,
                ));
            }
            return Ok(toks);
        }
        let (tr, end) = crate::lexer::scan::token_at(expr, j);
        match tr {
            Err(e) => {
                return Err(e);
            },
            Ok(tok) => {
                let ghost prev = toks@;
                let ghost tv = token_view(tok);
                toks.push((j, tok, end));
                proof {
                    assert(toks@.drop_last() =~= prev);
                    assert(toks@.len() == prev.len() + 1);
                    assert(toks@.last().0 == j && toks@.last().2 == end && token_view(
                        toks@.last().1,
                    ) == tv);
                    assert(spanned_view(toks@.last()) == (j as int, tv, end as int));
                    assert(spanned_views(toks@) == spanned_views(toks@.drop_last()).push(
                        spanned_view(toks@.last()),
                    ));
                    assert(spanned_views(toks@) == spanned_views(prev).push(
                        (j as int, tv, end as int),
                    ));
                    match spec_lex_from(u, end as int) {
                        Ok(rest) => {
                            assert(spanned_views(prev) + (seq![(j as int, tv, end as int)] + rest)
                                =~= spanned_views(toks@) + rest);
                        },
                        Err(_) => {},
                    }
                }
                pos = end;
            },
        }
    }
}

/// Splits the text between a string literal's quotes into its ordered parts:
/// pending text is flushed at each escape or interpolation, escapes are
/// decoded by the fixed table, and each balanced `#{...}` interior is lexed
/// again by the scanner itself.
#[verifier::rlimit(100)]
#[verifier::spinoff_prover]
pub fn process_string_literal(input: &str) -> (r: Result<Vec<StringPart>, LexingError>)
    ensures
        parts_res_view(r) == spec_parts(input@),
    decreases input@.len(), 3int,
{
    let ghost t = input@;
    let n = input.unicode_len();
    let mut parts: Vec<StringPart> = Vec::new();
    let mut i: usize = 0;
    let mut ts: usize = 0;
    while i < n
        invariant
            ts <= i <= n,
            n == t.len(),
            input@ == t,
            spec_parts(t) == match spec_parts_from(t, i as int, ts as int) {
                Ok(rest) => Ok::<_, LexingErrorView>(parts_views(parts@) + rest),
                Err(e) => Err(e),
            },
        decreases n - i,
    {
        let c = input.get_char(i);
        if c == '\\' {
            let ghost parts0 = parts@;
            let ghost flushed: Seq<StringPartView> = if i > ts {
                seq![StringPartView::Text(t.subrange(ts as int, i as int))]
            } else {
                Seq::empty()
            };
            if i > ts {
                let piece = StringPart::Text(String::from_str(input.substring_char(ts, i)));
                proof {
                    lemma_parts_views_push(parts0, piece);
                }
                parts.push(piece);
            }
            proof {
                assert(parts_views(parts@) =~= parts_views(parts0) + flushed);
            }
            let ghost parts1 = parts@;
            match process_escape_sequence(input, i + 1) {
                Ok((p, q)) => {
                    let ghost pv = part_view(p);
                    proof {
                        lemma_parts_views_push(parts1, p);
                    }
                    parts.push(p);
                    proof {
                        match spec_parts_from(t, q as int, q as int) {
                            Ok(rest) => {
                                assert(parts_views(parts0) + (flushed + seq![pv] + rest)
                                    =~= parts_views(parts@) + rest);
                            },
                            Err(_) => {},
                        }
                    }
                    i = q;
                    ts = q;
                },
                Err(e) => {
                    return Err(e);
                },
            }
        } else if c == '#' && i + 1 < n && input.get_char(i + 1) == '{' {
            let ghost parts0 = parts@;
            let ghost flushed: Seq<StringPartView> = if i > ts {
                seq![StringPartView::Text(t.subrange(ts as int, i as int))]
            } else {
                Seq::empty()
            };
            if i > ts {
                let piece = StringPart::Text(String::from_str(input.substring_char(ts, i)));
                proof {
                    lemma_parts_views_push(parts0, piece);
                }
                parts.push(piece);
            }
            proof {
                assert(parts_views(parts@) =~= parts_views(parts0) + flushed);
            }
            let ghost parts1 = parts@;
            match process_interpolation(input, i) {
                Ok((p, np)) => {
                    let ghost pv = part_view(p);
                    proof {
                        lemma_parts_views_push(parts1, p);
                    }
                    parts.push(p);
                    proof {
                        match spec_parts_from(t, np as int, np as int) {
                            Ok(rest) => {
                                assert(parts_views(parts0) + (flushed + seq![pv] + rest)
                                    =~= parts_views(parts@) + rest);
                            },
                            Err(_) => {},
                        }
                    }
                    i = np;
                    ts = np;
                },
                Err(e) => {
                    return Err(e);
                },
            }
        } else {
            i = i + 1;
        }
    }
    if ts < n {
        let ghost parts0 = parts@;
        let piece = StringPart::Text(String::from_str(input.substring_char(ts, n)));
        proof {
            lemma_parts_views_push(parts0, piece);
        }
        parts.push(piece);
        proof {
            assert(parts_views(parts@) =~= parts_views(parts0) + seq![
                StringPartView::Text(t.subrange(ts as int, t.len() as int)),
            ]);
        }
    } else {
        proof {
            assert(parts_views(parts@) + Seq::<StringPartView>::empty() =~= parts_views(parts@));
        }
    }
    Ok(parts)
}

/// Handles one `#{...}` interpolation whose `#` stands at `i`: finds the
/// balancing brace, lexes the interior, and returns the Expression part with
/// the position just past the closing brace.
fn process_interpolation(input: &str, i: usize) -> (r: Result<(StringPart, usize), LexingError>)
    requires
        i + 1 < input@.len(),
        input@[i as int] == '#',
        input@[i as int + 1] == '{',
    ensures
        match (r, spec_interp(input@, i as int)) {
            (Ok((p, np)), Ok(sp)) => part_view(p) == StringPartView::Expression(sp.0) && np as int
                == sp.1 + 1 && i < np <= input@.len(),
            (Err(er), Err(ev)) => err_view(er) == ev,
            _ => false,
        },
    decreases input@.len(), 2int,
{
    let n = input.unicode_len();
    match crate::lexer::scan::find_brace_end(input, i + 2) {
        Option::None => Err(
            LexingError::UnterminatedString(
                String::from_str("Unterminated expression in string interpolation"),
            ),
        ),
        Option::Some(e) => {
            let interior = input.substring_char(i + 2, e);
            match parse_interpolated_expression(interior) {
                Ok(toks) => Ok((StringPart::Expression(toks), e + 1)),
                Err(err) => Err(err),
            }
        },
    }
}

} // verus!
