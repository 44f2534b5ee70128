//! Laws of the scanner and the evaluator, stated over the specifications
//! in `scanner` and `interpreter` and proved once and for all inputs.

use crate::interpreter::{div_zero_msg, eval_expr, eval_ops, is_op_kind, EvalOut};
use crate::scanner::{
    eof_spec_token, is_single_punct, lemma_line_end_bounds, lemma_quote_end_bounds,
    lemma_scan_step_bounds, line_end, quote_end, scan_errors_spec, scan_from, scan_step,
    scan_tokens_spec, single_punct_kind, unterminated_msg, SpecLiteral, SpecToken, TokenType,
};
use vstd::prelude::*;

verus! {

proof fn lemma_punct_scan_from(s: Seq<char>, i: int, line: int)
    requires
        0 <= i <= s.len(),
        forall|k: int| 0 <= k < s.len() ==> is_single_punct(s[k]),
    ensures
        ({
            let o = scan_from(s, i, line);
            &&& o.errors.len() == 0
            &&& o.tokens.len() == s.len() - i
            &&& o.line == line
            &&& forall|k: int|
                i <= k < s.len() ==> (o.tokens[k - i].kind == single_punct_kind(s[k])
                    && o.tokens[k - i].lexeme == seq![s[k]] && o.tokens[k - i].line == line)
        }),
    decreases s.len() - i,
{
    if i < s.len() {
        assert(s.subrange(i, i + 1) =~= seq![s[i]]);
        lemma_punct_scan_from(s, i + 1, line);
    }
}

/// For a source made only of single-character punctuation, scanning
/// succeeds and emits one token per character, in source order, each the
/// kind of its character, followed by the end-of-input token.
pub proof fn lemma_single_punct_source(s: Seq<char>)
    requires
        forall|k: int| 0 <= k < s.len() ==> is_single_punct(s[k]),
    ensures
        scan_errors_spec(s).len() == 0,
        scan_tokens_spec(s).len() == s.len() + 1,
        forall|k: int|
            0 <= k < s.len() ==> (scan_tokens_spec(s)[k].kind == single_punct_kind(s[k])
                && scan_tokens_spec(s)[k].lexeme == seq![s[k]]),
        scan_tokens_spec(s).last().kind == TokenType::Eof,
{
    lemma_punct_scan_from(s, 0, 1);
}

proof fn lemma_scan_from_no_eof(s: Seq<char>, i: int, line: int)
    requires
        0 <= i <= s.len(),
    ensures
        forall|k: int|
            0 <= k < scan_from(s, i, line).tokens.len() ==> scan_from(
                s,
                i,
                line,
            ).tokens[k].kind != TokenType::Eof,
    decreases s.len() - i,
{
    if i < s.len() {
        lemma_scan_step_bounds(s, i, line);
        let step = scan_step(s, i, line);
        lemma_scan_from_no_eof(s, step.next, step.line);
    }
}

/// Every token sequence ends with exactly one end-of-input token, whether
/// or not lexical errors occurred: the last token is `Eof`, and no earlier
/// one is.
pub proof fn lemma_eof_exactly_once(s: Seq<char>)
    ensures
        scan_tokens_spec(s).len() >= 1,
        scan_tokens_spec(s).last().kind == TokenType::Eof,
        forall|k: int|
            0 <= k < scan_tokens_spec(s).len() - 1 ==> scan_tokens_spec(s)[k].kind
                != TokenType::Eof,
{
    lemma_scan_from_no_eof(s, 0, 1);
}

/// A line comment contributes no tokens and no errors: scanning from its
/// two slashes is scanning from the end of that line.
pub proof fn lemma_line_comment(s: Seq<char>, i: int, line: int)
    requires
        0 <= i,
        i + 1 < s.len(),
        s[i] == '/',
        s[i + 1] == '/',
    ensures
        scan_from(s, i, line) == scan_from(s, line_end(s, i + 2), line),
{
    lemma_line_end_bounds(s, i + 2);
}

/// A source that is one line comment and nothing else scans, for every
/// comment text, to exactly the end-of-input token, with no errors.
pub proof fn lemma_comment_only_source(s: Seq<char>)
    requires
        s.len() >= 2,
        s[0] == '/',
        s[1] == '/',
        forall|k: int| 0 <= k < s.len() ==> s[k] != '\n',
    ensures
        scan_errors_spec(s).len() == 0,
        scan_tokens_spec(s) =~= seq![eof_spec_token(1)],
{
    lemma_line_comment(s, 0, 1);
    lemma_line_end_bounds(s, 2);
    assert(line_end(s, 2) == s.len());
}

/// A string literal that is never closed is one lexical error naming it,
/// and ends the scan: nothing after the opening quote yields a token.
pub proof fn lemma_unterminated_string(s: Seq<char>, i: int, line: int)
    requires
        0 <= i < s.len(),
        s[i] == '"',
        quote_end(s, i + 1) >= s.len(),
    ensures
        scan_from(s, i, line).errors =~= seq![unterminated_msg()],
        scan_from(s, i, line).tokens =~= Seq::<SpecToken>::empty(),
{
    lemma_quote_end_bounds(s, i + 1);
    let step = scan_step(s, i, line);
    assert(step.next == s.len());
    assert(scan_from(s, s.len() as int, step.line).errors =~= Seq::<Seq<char>>::empty());
    assert(scan_from(s, i, line).errors =~= seq![unterminated_msg()]);
}

/// A division whose right operand is the literal zero fails with the
/// division-by-zero error, whatever has been folded so far.
pub proof fn lemma_division_by_zero(
    ts: Seq<SpecToken>,
    pos: int,
    acc: i64,
    env: Map<Seq<char>, SpecLiteral>,
)
    requires
        0 <= pos,
        pos + 1 < ts.len(),
        ts[pos].kind == TokenType::Slash,
        ts[pos + 1].kind == TokenType::Number,
        ts[pos + 1].literal == Option::Some(SpecLiteral::Int(0i64)),
    ensures
        eval_ops(ts, pos, acc, env).res == Err::<i64, Seq<char>>(div_zero_msg()),
{
}

/// Left-to-right fold with no precedence: a literal expression
/// `a - b + c` evaluates to `(a - b) + c` (wrapping on overflow), never to
/// a precedence-aware reading.
pub proof fn lemma_left_to_right_fold(
    ts: Seq<SpecToken>,
    pos: int,
    a: i64,
    b: i64,
    c: i64,
    env: Map<Seq<char>, SpecLiteral>,
)
    requires
        0 <= pos,
        pos + 4 < ts.len(),
        ts[pos].kind == TokenType::Number,
        ts[pos].literal == Option::Some(SpecLiteral::Int(a)),
        ts[pos + 1].kind == TokenType::Minus,
        ts[pos + 2].kind == TokenType::Number,
        ts[pos + 2].literal == Option::Some(SpecLiteral::Int(b)),
        ts[pos + 3].kind == TokenType::Plus,
        ts[pos + 4].kind == TokenType::Number,
        ts[pos + 4].literal == Option::Some(SpecLiteral::Int(c)),
        pos + 5 == ts.len() || !is_op_kind(ts[pos + 5].kind),
    ensures
        eval_expr(ts, pos, env).res == Ok::<i64, Seq<char>>(a.wrapping_sub(b).wrapping_add(c)),
        eval_expr(ts, pos, env).pos == pos + 5,
{
    let v1 = a.wrapping_sub(b);
    let v2 = v1.wrapping_add(c);
    assert(eval_ops(ts, pos + 5, v2, env) == EvalOut { pos: pos + 5, res: Ok::<i64, Seq<char>>(v2) });
    assert(eval_ops(ts, pos + 3, v1, env) == eval_ops(ts, pos + 5, v2, env));
    assert(eval_ops(ts, pos + 1, a, env) == eval_ops(ts, pos + 3, v1, env));
}

} // verus!
