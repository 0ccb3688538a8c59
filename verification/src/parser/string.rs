//! Merging a string literal's decoded parts for the parser: adjacent text,
//! escape and Unicode parts collapse into one text run, and each embedded
//! expression stands on its own between the runs.
//!
//! The grammar that parses each embedded token run is a collaborator outside
//! this crate: the caller parses the runs and hands the expressions in, in
//! order of appearance.

use vstd::prelude::*;

use crate::ast::Expr;
use crate::lexer::str_litteral::StringPart;
use crate::lexer::tokens::push_char;

verus! {

/// One piece of a string literal as the parser sees it: a decoded text run,
/// or an embedded, already parsed expression.
#[derive(Debug)]
pub enum ParserStringPart {
    Text(String),
    Expression(Expr),
}

/// The decoded characters a non-expression part stands for.
pub open spec fn part_text(p: StringPart) -> Seq<char> {
    match p {
        StringPart::Text(t) => t@,
        StringPart::EscapeChar(c) => seq![c],
        StringPart::Unicode(c) => seq![c],
        StringPart::Expression(_) => Seq::empty(),
    }
}

/// The model of one merged piece: a text run, or the position of an embedded
/// expression among the literal's expressions.
pub enum MergedPart {
    Text(Seq<char>),
    Expression(int),
}

/// The number of expression parts in a run of string parts.
pub open spec fn expr_count(parts: Seq<StringPart>) -> int
    decreases parts.len(),
{
    if parts.len() == 0 {
        0int
    } else {
        expr_count(parts.drop_last()) + if parts.last() is Expression {
            1int
        } else {
            0int
        }
    }
}

/// The merged shape of a run of string parts, from part `i` on, with `acc`
/// the pending text and `k` the number of expressions already passed.
pub open spec fn merge_model(parts: Seq<StringPart>, i: int, acc: Seq<char>, k: int) -> Seq<
    MergedPart,
>
    decreases parts.len() - i,
{
    if !(0 <= i < parts.len()) {
        if acc.len() > 0 {
            seq![MergedPart::Text(acc)]
        } else {
            Seq::empty()
        }
    } else if parts[i] is Expression {
        let flushed: Seq<MergedPart> = if acc.len() > 0 {
            seq![MergedPart::Text(acc)]
        } else {
            Seq::empty()
        };
        flushed + seq![MergedPart::Expression(k)] + merge_model(parts, i + 1, Seq::empty(), k + 1)
    } else {
        merge_model(parts, i + 1, acc + part_text(parts[i]), k)
    }
}

/// Whether the merged output matches the merged model, with each expression
/// placeholder standing for the parsed expression at its position.
pub open spec fn merged_matches(
    out: Seq<ParserStringPart>,
    model: Seq<MergedPart>,
    exprs: Seq<Expr>,
) -> bool {
    out.len() == model.len() && forall|j: int|
        0 <= j < out.len() ==> (match #[trigger] model[j] {
            MergedPart::Text(txt) => out[j] matches ParserStringPart::Text(t) && t@ == txt,
            MergedPart::Expression(k) => 0 <= k < exprs.len() && (out[j]
                matches ParserStringPart::Expression(e) && e == exprs[k]),
        })
}

/// Merges a literal's decoded parts into the parser's view of the literal:
/// runs of text, escapes and Unicode escapes collapse into single text
/// pieces, and the literal's embedded expressions — parsed by the grammar
/// collaborator and handed in, in order of appearance — stand between them.
pub fn process_parser_string(parts: Vec<StringPart>, exprs: Vec<Expr>) -> (r: Vec<ParserStringPart>)
    requires
        expr_count(parts@) == exprs@.len(),
    ensures
        merged_matches(r@, merge_model(parts@, 0, Seq::empty(), 0), exprs@),
{
    let ghost all_parts = parts@;
    let ghost all_exprs = exprs@;
    let ghost model = merge_model(all_parts, 0, Seq::<char>::empty(), 0);
    let mut out: Vec<ParserStringPart> = Vec::new();
    let mut cur: String = String::new();
    let mut rest = exprs;
    let n = parts.len();
    let mut parts_left = parts;
    let mut i: usize = 0;
    proof {
        assert(all_parts.skip(0) =~= all_parts);
        assert(all_exprs.skip(0) =~= all_exprs);
        assert(model.subrange(0, 0int) =~= Seq::<MergedPart>::empty());
        assert(model.subrange(0, 0int) + model =~= model);
    }
    while i < n
        invariant
            0 <= i <= n,
            n == all_parts.len(),
            parts_left@ == all_parts.skip(i as int),
            rest@.len() <= all_exprs.len(),
            rest@ == all_exprs.skip(all_exprs.len() - rest@.len()),
            expr_count(all_parts.skip(i as int)) == rest@.len(),
            model == merge_model(all_parts, 0, Seq::<char>::empty(), 0),
            merged_matches(out@, model.subrange(0, out@.len() as int), all_exprs),
            out@.len() <= model.len(),
            model == model.subrange(0, out@.len() as int) + merge_model(
                all_parts,
                i as int,
                cur@,
                all_exprs.len() - rest@.len(),
            ),
        decreases n - i,
    {
        proof {
            assert(all_parts.skip(i as int)[0] == all_parts[i as int]);
            lemma_expr_count_first(all_parts.skip(i as int));
            assert(all_parts.skip(i as int).drop_first() =~= all_parts.skip(i as int + 1));
            lemma_expr_count_split(all_parts, i as int + 1);
        }
        let ghost k = all_exprs.len() - rest@.len();
        let p = parts_left.remove(0);
        proof {
            assert(parts_left@ =~= all_parts.skip(i as int + 1));
        }
        match p {
            StringPart::Text(t) => {
                cur.append(t.as_str());
            },
            StringPart::EscapeChar(c) => {
                push_char(&mut cur, c);
            },
            StringPart::Unicode(c) => {
                push_char(&mut cur, c);
            },
            StringPart::Expression(_) => {
                let ghost done = out@.len() as int;
                let ghost flushed: Seq<MergedPart> = if cur@.len() > 0 {
                    seq![MergedPart::Text(cur@)]
                } else {
                    Seq::empty()
                };
                let ghost tail = merge_model(all_parts, i as int + 1, Seq::<char>::empty(), k + 1);
                proof {
                    assert(merge_model(all_parts, i as int, cur@, k) == flushed + seq![
                        MergedPart::Expression(k),
                    ] + tail);
                    assert(model.subrange(0, done) + (flushed + seq![MergedPart::Expression(k)]
                        + tail) =~= (model.subrange(0, done) + flushed + seq![
                        MergedPart::Expression(k),
                    ]) + tail);
                    assert(model.subrange(
                        0,
                        done + flushed.len() + 1,
                    ) =~= model.subrange(0, done) + flushed + seq![MergedPart::Expression(k)]);
                }
                if cur.as_str().unicode_len() > 0 {
                    let flushed_text = cur;
                    cur = String::new();
                    out.push(ParserStringPart::Text(flushed_text));
                }
                let e = rest.remove(0);
                proof {
                    assert(all_exprs.skip(k)[0] == all_exprs[k]);
                    assert(rest@ =~= all_exprs.skip(k + 1));
                }
                out.push(ParserStringPart::Expression(e));
                proof {
                    assert(out@.len() == done + flushed.len() + 1);
                    assert(merged_matches(out@, model.subrange(0, out@.len() as int), all_exprs));
                }
            },
        }
        i = i + 1;
    }
    proof {
        assert(all_parts.skip(n as int) =~= Seq::<StringPart>::empty());
    }
    if cur.as_str().unicode_len() > 0 {
        proof {
            assert(model =~= model.subrange(0, out@.len() as int) + seq![MergedPart::Text(cur@)]);
            assert(model.subrange(0, model.len() as int) =~= model);
        }
        out.push(ParserStringPart::Text(cur));
    } else {
        proof {
            assert(model =~= model.subrange(0, out@.len() as int));
            assert(model.subrange(0, model.len() as int) =~= model);
        }
    }
    out
}



/// Counting expressions distributes over taking the first part.
proof fn lemma_expr_count_first(parts: Seq<StringPart>)
    requires
        parts.len() > 0,
    ensures
        expr_count(parts) == (if parts[0] is Expression {
            1int
        } else {
            0int
        }) + expr_count(parts.drop_first()),
    decreases parts.len(),
{
    if parts.len() == 1 {
        assert(parts.drop_first() =~= parts.drop_last());
    } else {
        lemma_expr_count_first(parts.drop_last());
        assert(parts.drop_last().drop_first() =~= parts.drop_first().drop_last());
        assert(parts.drop_last()[0] == parts[0]);
        assert(parts.drop_first().last() == parts.last());
    }
}

/// Counting expressions is non-negative on any suffix.
proof fn lemma_expr_count_split(parts: Seq<StringPart>, i: int)
    requires
        0 <= i <= parts.len(),
    ensures
        expr_count(parts.skip(i)) >= 0,
    decreases parts.len() - i,
{
    if i < parts.len() {
        lemma_expr_count_split(parts, i + 1);
        lemma_expr_count_first(parts.skip(i));
        assert(parts.skip(i).drop_first() =~= parts.skip(i + 1));
    } else {
        assert(parts.skip(i) =~= Seq::<StringPart>::empty());
    }
}

} // verus!
