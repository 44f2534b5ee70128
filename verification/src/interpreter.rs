//! Statement and expression evaluation over the token stream.
//!
//! `run` scans a source and walks the token sequence with a single forward
//! cursor, recognizing `var <name> = <expr>`, `<name> = <expr>` and a bare
//! `<name>` (a read), and ignoring every other token at a statement
//! boundary. An expression is a strict left-to-right fold of integer terms
//! combined with `+ - * /`, with no precedence and no grouping. The
//! executable functions are proved against the recursive specifications
//! `eval_expr` and `run_from` below.

use crate::environment::{undef_msg, undef_text, Environment};
use crate::scanner::{
    join_newline, lit_text, literal_text, scan_errors_spec, scan_tokens_spec, LiteralValue,
    Scanner, SpecLiteral, SpecToken, Token, TokenType,
};
use vstd::prelude::*;
use vstd::string::StringExecFns;

verus! {

/// The message for an expression that does not begin with a number or a
/// variable.
pub open spec fn expected_term_msg() -> Seq<char> {
    "Expected a number or variable"@
}

/// The message for an operator that is not followed by a number or a
/// variable.
pub open spec fn expected_after_op_msg() -> Seq<char> {
    "Expected a number or variable after operator"@
}

/// The message for a division whose right operand is zero.
pub open spec fn div_zero_msg() -> Seq<char> {
    "Division by zero"@
}

/// The printed line for a successful read of a variable.
pub open spec fn print_line(name: Seq<char>, v: SpecLiteral) -> Seq<char> {
    name + " = "@ + lit_text(v)
}

/// Whether a token kind is one of the four binary operators.
pub open spec fn is_op_kind(k: TokenType) -> bool {
    k == TokenType::Plus || k == TokenType::Minus || k == TokenType::Star || k == TokenType::Slash
}

/// The integer value of one primary term under an environment: a number
/// literal, or an identifier bound to an integer. Any other token, and an
/// identifier bound to a non-integer or not bound at all, is an error;
/// `otherwise` is the message for a token of the wrong kind.
pub open spec fn term_value(
    t: SpecToken,
    env: Map<Seq<char>, SpecLiteral>,
    otherwise: Seq<char>,
) -> Result<i64, Seq<char>> {
    if t.kind == TokenType::Number {
        match t.literal {
            Option::Some(SpecLiteral::Int(v)) => Ok(v),
            _ => Err(otherwise),
        }
    } else if t.kind == TokenType::Identifier {
        if env.contains_key(t.lexeme) {
            match env[t.lexeme] {
                SpecLiteral::Int(v) => Ok(v),
                _ => Err(undef_msg(t.lexeme)),
            }
        } else {
            Err(undef_msg(t.lexeme))
        }
    } else {
        Err(otherwise)
    }
}

/// One binary operation on two integer values. Addition, subtraction and
/// multiplication wrap around on overflow; division truncates toward zero,
/// fails on a zero right operand, and wraps around in the one overflowing
/// case (the smallest value divided by minus one).
pub open spec fn apply_op(op: TokenType, a: i64, b: i64) -> Result<i64, Seq<char>>
    recommends
        is_op_kind(op),
{
    if op == TokenType::Plus {
        Ok(a.wrapping_add(b))
    } else if op == TokenType::Minus {
        Ok(a.wrapping_sub(b))
    } else if op == TokenType::Star {
        Ok(a.wrapping_mul(b))
    } else if b == 0 {
        Err(div_zero_msg())
    } else {
        Ok(
            match a.checked_div(b) {
                Option::Some(q) => q,
                Option::None => i64::MIN,
            },
        )
    }
}

/// The cursor position and result after evaluating (part of) an
/// expression.
pub struct EvalOut {
    pub pos: int,
    pub res: Result<i64, Seq<char>>,
}

/// Folds `acc` with every following `op term` pair, left to right,
/// stopping at the first token that is not an operator.
pub open spec fn eval_ops(
    ts: Seq<SpecToken>,
    pos: int,
    acc: i64,
    env: Map<Seq<char>, SpecLiteral>,
) -> EvalOut
    decreases ts.len() - pos,
    when 0 <= pos <= ts.len()
{
    if pos >= ts.len() || !is_op_kind(ts[pos].kind) {
        EvalOut { pos, res: Ok(acc) }
    } else if pos + 1 >= ts.len() {
        EvalOut { pos: pos + 1, res: Err(expected_after_op_msg()) }
    } else {
        match term_value(ts[pos + 1], env, expected_after_op_msg()) {
            Ok(b) => match apply_op(ts[pos].kind, acc, b) {
                Ok(acc2) => eval_ops(ts, pos + 2, acc2, env),
                Err(m) => EvalOut { pos: pos + 2, res: Err(m) },
            },
            Err(m) => EvalOut { pos: pos + 2, res: Err(m) },
        }
    }
}

/// Evaluates one expression beginning at `pos`: one primary term, folded
/// left to right with every following `op term` pair.
pub open spec fn eval_expr(ts: Seq<SpecToken>, pos: int, env: Map<Seq<char>, SpecLiteral>) -> EvalOut
    recommends
        0 <= pos <= ts.len(),
{
    if pos >= ts.len() {
        EvalOut { pos, res: Err(expected_term_msg()) }
    } else {
        match term_value(ts[pos], env, expected_term_msg()) {
            Ok(v) => eval_ops(ts, pos + 1, v, env),
            Err(m) => EvalOut { pos: pos + 1, res: Err(m) },
        }
    }
}

/// Evaluating never moves the cursor backwards, never past the end, and a
/// successful evaluation consumed at least one token.
proof fn lemma_eval_ops_pos(
    ts: Seq<SpecToken>,
    pos: int,
    acc: i64,
    env: Map<Seq<char>, SpecLiteral>,
)
    requires
        0 <= pos <= ts.len(),
    ensures
        pos <= eval_ops(ts, pos, acc, env).pos <= ts.len(),
    decreases ts.len() - pos,
{
    if pos < ts.len() && is_op_kind(ts[pos].kind) && pos + 1 < ts.len() {
        match term_value(ts[pos + 1], env, expected_after_op_msg()) {
            Ok(b) => match apply_op(ts[pos].kind, acc, b) {
                Ok(acc2) => lemma_eval_ops_pos(ts, pos + 2, acc2, env),
                Err(_) => {}
            },
            Err(_) => {}
        }
    }
}

/// The cursor bounds of `eval_expr`, for every outcome.
proof fn lemma_eval_expr_pos(ts: Seq<SpecToken>, pos: int, env: Map<Seq<char>, SpecLiteral>)
    requires
        0 <= pos <= ts.len(),
    ensures
        pos <= eval_expr(ts, pos, env).pos <= ts.len(),
        eval_expr(ts, pos, env).res is Ok ==> pos < eval_expr(ts, pos, env).pos,
{
    if pos < ts.len() {
        match term_value(ts[pos], env, expected_term_msg()) {
            Ok(v) => {
                lemma_eval_ops_pos(ts, pos + 1, v, env);
            }
            Err(_) => {}
        }
    }
}

/// The environment, the printed lines, and the error (if any) after a run.
pub struct RunOut {
    pub env: Map<Seq<char>, SpecLiteral>,
    pub out: Seq<Seq<char>>,
    pub err: Option<Seq<char>>,
}

/// Walks the token sequence from `pos`, one statement form at a time:
/// `var <name> = <expr>` defines, `<name> = <expr>` assigns to an existing
/// binding, a bare `<name>` prints its value, and any other token is
/// ignored. A malformed `var` form is skipped silently, its inspected
/// tokens consumed. The first evaluation error stops the run.
pub open spec fn run_from(
    ts: Seq<SpecToken>,
    pos: int,
    env: Map<Seq<char>, SpecLiteral>,
    out: Seq<Seq<char>>,
) -> RunOut
    decreases ts.len() - pos,
    when 0 <= pos <= ts.len()
    via run_from_decreases
{
    if pos >= ts.len() {
        RunOut { env, out, err: Option::None }
    } else {
        let t = ts[pos];
        if t.kind == TokenType::Var {
            if pos + 1 >= ts.len() {
                RunOut { env, out, err: Option::None }
            } else if ts[pos + 1].kind != TokenType::Identifier {
                run_from(ts, pos + 2, env, out)
            } else if pos + 2 >= ts.len() {
                RunOut { env, out, err: Option::None }
            } else if ts[pos + 2].kind != TokenType::Equal {
                run_from(ts, pos + 3, env, out)
            } else {
                let e = eval_expr(ts, pos + 3, env);
                match e.res {
                    Ok(v) => run_from(
                        ts,
                        e.pos,
                        env.insert(ts[pos + 1].lexeme, SpecLiteral::Int(v)),
                        out,
                    ),
                    Err(m) => RunOut { env, out, err: Option::Some(m) },
                }
            }
        } else if t.kind == TokenType::Identifier {
            if pos + 1 < ts.len() && ts[pos + 1].kind == TokenType::Equal {
                let e = eval_expr(ts, pos + 2, env);
                match e.res {
                    Ok(v) => if env.contains_key(t.lexeme) {
                        run_from(ts, e.pos, env.insert(t.lexeme, SpecLiteral::Int(v)), out)
                    } else {
                        RunOut { env, out, err: Option::Some(undef_msg(t.lexeme)) }
                    },
                    Err(m) => RunOut { env, out, err: Option::Some(m) },
                }
            } else {
                if env.contains_key(t.lexeme) {
                    run_from(ts, pos + 1, env, out.push(print_line(t.lexeme, env[t.lexeme])))
                } else {
                    RunOut { env, out, err: Option::Some(undef_msg(t.lexeme)) }
                }
            }
        } else {
            run_from(ts, pos + 1, env, out)
        }
    }
}

/// Whether a token kind is one of the four binary operators.
fn is_op(k: TokenType) -> (r: bool)
    ensures
        r == is_op_kind(k),
{
    k == TokenType::Plus || k == TokenType::Minus || k == TokenType::Star || k == TokenType::Slash
}

/// The integer value of one primary term: the token at the cursor, which is
/// consumed. `after_op` selects the wrong-kind error message.
fn term(tokens: &Vec<Token>, pos: &mut usize, env: &Environment, after_op: bool) -> (r: Result<
    i64,
    String,
>)
    requires
        *old(pos) <= tokens@.len(),
    ensures
        ({
            let otherwise = if after_op {
                expected_after_op_msg()
            } else {
                expected_term_msg()
            };
            if *old(pos) < tokens@.len() {
                &&& *final(pos) == *old(pos) + 1
                &&& match r {
                    Ok(v) => term_value(tokens.deep_view()[*old(pos) as int], env@, otherwise)
                        == Ok::<i64, Seq<char>>(v),
                    Err(m) => term_value(tokens.deep_view()[*old(pos) as int], env@, otherwise)
                        == Err::<i64, Seq<char>>(m@),
                }
            } else {
                &&& *final(pos) == *old(pos)
                &&& (r matches Err(m) && m@ == otherwise)
            }
        }),
{
    if *pos >= tokens.len() {
        return Err(
            if after_op {
                "Expected a number or variable after operator".to_owned()
            } else {
                "Expected a number or variable".to_owned()
            },
        );
    }
    let t = &tokens[*pos];
    *pos = *pos + 1;
    if t.token_type == TokenType::Number {
        match &t.literal {
            Option::Some(LiteralValue::IntValue(v)) => Ok(*v),
            _ => Err(
                if after_op {
                    "Expected a number or variable after operator".to_owned()
                } else {
                    "Expected a number or variable".to_owned()
                },
            ),
        }
    } else if t.token_type == TokenType::Identifier {
        match env.get(t.lexeme.as_str()) {
            Option::Some(LiteralValue::IntValue(v)) => Ok(*v),
            _ => Err(undef_text(t.lexeme.as_str())),
        }
    } else {
        Err(
            if after_op {
                "Expected a number or variable after operator".to_owned()
            } else {
                "Expected a number or variable".to_owned()
            },
        )
    }
}

/// Evaluates one expression beginning at the cursor: a primary term folded
/// left to right with every following `op term` pair, exactly as
/// `eval_expr` says. Wrong terms, unbound or non-integer variables, and
/// division by zero are errors.
pub fn evaluate_expression(tokens: &Vec<Token>, pos: &mut usize, env: &Environment) -> (r: Result<
    LiteralValue,
    String,
>)
    requires
        *old(pos) <= tokens@.len(),
    ensures
        ({
            let e = eval_expr(tokens.deep_view(), *old(pos) as int, env@);
            &&& *final(pos) == e.pos
            &&& match r {
                Ok(lv) => e.res is Ok && lv@ == SpecLiteral::Int(e.res->Ok_0),
                Err(m) => e.res is Err && m@ == e.res->Err_0,
            }
        }),
{
    let ghost ts = tokens.deep_view();
    let ghost p0 = *pos as int;
    proof {
        assert(ts.len() == tokens@.len());
    }
    let mut result: i64 = match term(tokens, pos, env, false) {
        Ok(v) => v,
        Err(m) => {
            return Err(m);
        }
    };
    let ghost goal = eval_ops(ts, *pos as int, result, env@);
    proof {
        assert(eval_expr(ts, p0, env@) == goal);
    }
    while *pos < tokens.len() && is_op(tokens[*pos].token_type)
        invariant
            ts == tokens.deep_view(),
            *pos <= tokens@.len(),
            goal == eval_ops(ts, *pos as int, result, env@),
            goal == eval_expr(ts, *old(pos) as int, env@),
        decreases tokens@.len() - *pos,
    {
        let op = tokens[*pos].token_type;
        *pos = *pos + 1;
        let b = match term(tokens, pos, env, true) {
            Ok(v) => v,
            Err(m) => {
                return Err(m);
            }
        };
        if op == TokenType::Slash && b == 0 {
            return Err("Division by zero".to_owned());
        }
        result = if op == TokenType::Plus {
            result.wrapping_add(b)
        } else if op == TokenType::Minus {
            result.wrapping_sub(b)
        } else if op == TokenType::Star {
            result.wrapping_mul(b)
        } else {
            match result.checked_div(b) {
                Option::Some(q) => q,
                Option::None => i64::MIN,
            }
        };
    }
    Ok(LiteralValue::IntValue(result))
}

/// Scans `contents` and executes its statements against `env`. Lines that
/// a successful read would print are appended to `out` in order, also when
/// a later statement fails. If scanning found lexical errors, their
/// messages are joined into the single returned error and nothing is
/// executed; otherwise the run stops at the first evaluation error and
/// returns it.
pub fn run(contents: &str, env: &mut Environment, out: &mut Vec<String>) -> (r: Result<(), String>)
    requires
        contents@.len() < i64::MAX,
    ensures
        ({
            let s = contents@;
            if scan_errors_spec(s).len() > 0 {
                &&& (r matches Err(m) && m@ == join_newline(scan_errors_spec(s)))
                &&& final(env)@ == old(env)@
                &&& final(out)@ == old(out)@
            } else {
                let g = run_from(scan_tokens_spec(s), 0, old(env)@, old(out).deep_view());
                &&& final(env)@ == g.env
                &&& final(out).deep_view() == g.out
                &&& match g.err {
                    Option::None => r is Ok,
                    Option::Some(m2) => (r matches Err(m) && m@ == m2),
                }
            }
        }),
{
    let mut scanner = Scanner::new(contents);
    let tokens = match scanner.scan_tokens() {
        Ok(t) => t,
        Err(m) => {
            return Err(m);
        }
    };
    let ghost ts = tokens.deep_view();
    proof {
        assert(ts =~= scan_tokens_spec(contents@));
    }
    let ghost g = run_from(ts, 0, old(env)@, old(out).deep_view());
    let mut pos: usize = 0;
    while pos < tokens.len()
        invariant
            ts == tokens.deep_view(),
            ts == scan_tokens_spec(contents@),
            scan_errors_spec(contents@).len() == 0,
            pos <= tokens@.len(),
            g == run_from(ts, 0, old(env)@, old(out).deep_view()),
            g == run_from(ts, pos as int, env@, out.deep_view()),
        decreases tokens@.len() - pos,
    {
        let ghost p = pos as int;
        let ghost env0 = env@;
        let ghost out0 = out.deep_view();
        let kind = tokens[pos].token_type;
        let lex = tokens[pos].lexeme.clone();
        pos = pos + 1;
        if kind == TokenType::Var {
            if pos < tokens.len() {
                let is_ident = tokens[pos].token_type == TokenType::Identifier;
                let name = tokens[pos].lexeme.clone();
                pos = pos + 1;
                if is_ident {
                    if pos < tokens.len() {
                        let is_eq = tokens[pos].token_type == TokenType::Equal;
                        pos = pos + 1;
                        if is_eq {
                            proof {
                                lemma_eval_expr_pos(ts, pos as int, env@);
                            }
                            match evaluate_expression(&tokens, &mut pos, env) {
                                Ok(v) => {
                                    env.define(name, v);
                                }
                                Err(m) => {
                                    return Err(m);
                                }
                            }
                        }
                    }
                }
            }
        } else if kind == TokenType::Identifier {
            if pos < tokens.len() && tokens[pos].token_type == TokenType::Equal {
                pos = pos + 1;
                proof {
                    lemma_eval_expr_pos(ts, pos as int, env@);
                }
                match evaluate_expression(&tokens, &mut pos, env) {
                    Ok(v) => {
                        match env.assign(lex.as_str(), v) {
                            Ok(_) => {},
                            Err(m) => {
                                return Err(m);
                            }
                        }
                    }
                    Err(m) => {
                        return Err(m);
                    }
                }
            } else {
                match env.get(lex.as_str()) {
                    Option::Some(v) => {
                        let text = literal_text(v);
                        let mut line_s = lex;
                        line_s.append(" = ");
                        line_s.append(text.as_str());
                        out.push(line_s);
                        proof {
                            assert(out.deep_view() =~= out0.push(
                                print_line(ts[p].lexeme, env0[ts[p].lexeme]),
                            ));
                        }
                    }
                    Option::None => {
                        return Err(undef_text(lex.as_str()));
                    }
                }
            }
        }
    }
    Ok(())
}

#[via_fn]
proof fn run_from_decreases(
    ts: Seq<SpecToken>,
    pos: int,
    env: Map<Seq<char>, SpecLiteral>,
    out: Seq<Seq<char>>,
) {
    if 0 <= pos < ts.len() {
        if ts[pos].kind == TokenType::Var && pos + 2 < ts.len() && ts[pos + 1].kind
            == TokenType::Identifier && ts[pos + 2].kind == TokenType::Equal {
            lemma_eval_expr_pos(ts, pos + 3, env);
        }
        if ts[pos].kind == TokenType::Identifier && pos + 1 < ts.len() && ts[pos + 1].kind
            == TokenType::Equal {
            lemma_eval_expr_pos(ts, pos + 2, env);
        }
    }
}

} // verus!
