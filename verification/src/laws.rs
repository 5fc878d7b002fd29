//! Pipeline-wide verified statements: properties that tie the scanner, the
//! parser and the evaluator together, each shown by running the real
//! pipeline under a contract that pins the result for every allowed input.
use vstd::prelude::*;
use vstd::string::StringExecFns;
use crate::ast::{Expression, Statement, Infix, ExprV, StmtV, stmts_view, expression_text, infix_sym};
use crate::env::Env;
use crate::evaluate::{eval_return, CALL_DEPTH_LIMIT};
use crate::lexer::{Lexer, token_scan, skip_ws_from, digits_end, digits_val, is_digit_char, is_letter_char, is_ws_char,
    lemma_digits_end_is, lemma_digits_val_of_rep, lemma_token_scan_unique};
use crate::object::{Object, ObjV, objs_view};
use crate::parser::{Parser, at_integer_statement, at_infix_statement, at_infix2_statement, infix_token, order_rank, token_order_spec};
use crate::semantics::{EvalError, seval_stmts, seval_stmt, seval_expr, sunwrap};
use crate::token::{Token, token_eq_spec, int_to_string, push_char, dec_digits};

verus! {

/// Every valid integer literal evaluates to itself: writing a non-negative
/// number in decimal, closing the statement with a semicolon, and running
/// the whole pipeline over that text yields exactly that integer.
#[verifier::rlimit(100)]
#[verifier::spinoff_prover]
pub fn eval_integer_literal(n: i64) -> (r: Result<Object, EvalError>)
    requires
        0 <= n,
    ensures
        r matches Ok(o) && o@ == ObjV::Integer(n as int),
{
    let mut src = int_to_string(n);
    push_char(&mut src, ';');
    let ghost t = src@;
    let ghost k = dec_digits(n as int).len() as int;
    proof {
        assert(t == dec_digits(n as int).push(';'));
        assert(t.len() == k + 1);
        assert(t.subrange(0, k) =~= dec_digits(n as int));
        lemma_digits_val_of_rep(t, 0, n as int);
        assert(t[k] == ';');
    }
    let lexer = Lexer::new(src.as_str());
    let mut parser = Parser::new(lexer);
    proof {
        let mid = choose|mid: int|
            token_scan(t, 0, parser.current(), mid) && token_scan(t, mid, parser.peek(), parser.pos());
        assert(is_digit_char(t[0]));
        assert(skip_ws_from(t, 0) == 0);
        lemma_digits_end_is(t, 0, k);
        assert(digits_val(t, 0, k) == n as int);
        assert(parser.current() == Token::Int(n) && mid == k);
        assert(skip_ws_from(t, k) == k);
        assert(parser.peek() is Semicolon && parser.pos() == k + 1);
        assert(parser.text() == t);
        assert(at_integer_statement(parser));
    }
    let program = parser.parse();
    proof {
        assert(stmts_view(program@) == seq![StmtV::Expression(ExprV::Integer(n as int))]);
    }
    let mut env = Env::new();
    let mut out: Vec<Object> = Vec::new();
    let r = eval_return(&program, &mut env, &mut out);
    proof {
        let sv = stmts_view(program@);
        let fuel = CALL_DEPTH_LIMIT as nat;
        let emptyenv = Map::<Seq<char>, ObjV>::empty();
        let emptyout = Seq::<ObjV>::empty();
        assert(objs_view(Seq::<Object>::empty()) =~= emptyout);
        assert(sv.len() == 1 && sv[0] == StmtV::Expression(ExprV::Integer(n as int)));
        let first = seval_stmt(sv[0], emptyenv, emptyout, fuel);
        assert(seval_expr(ExprV::Integer(n as int), emptyenv, emptyout, fuel).result == Ok::<
            ObjV,
            EvalError,
        >(ObjV::Integer(n as int)));
        assert(first.result == Ok::<ObjV, EvalError>(ObjV::Integer(n as int)));
        assert(sv.drop_first() =~= Seq::<StmtV>::empty());
        assert(seval_stmts(sv.drop_first(), first.env, first.out, fuel, ObjV::Integer(n as int))
            .result == Ok::<ObjV, EvalError>(ObjV::Integer(n as int)));
        let so = seval_stmts(sv, emptyenv, emptyout, fuel, ObjV::Null);
        assert(so == seval_stmts(sv.drop_first(), first.env, first.out, fuel, ObjV::Integer(
            n as int,
        )));
        assert(so.result == Ok::<ObjV, EvalError>(ObjV::Integer(n as int)));
        assert(sunwrap(so.result) == Ok::<ObjV, EvalError>(ObjV::Integer(n as int)));
    }
    r
}

/// An operator symbol written into the text, with a blank after it, scans
/// to that operator's token.
pub proof fn lemma_infix_sym_scan(t: Seq<char>, start: int, p: int, op: Infix)
    requires
        0 <= start,
        skip_ws_from(t, start) == p,
        0 <= p,
        p + infix_sym(op).len() < t.len(),
        t.subrange(p, p + infix_sym(op).len()) == infix_sym(op),
        t[p + infix_sym(op).len()] == ' ',
    ensures
        token_scan(t, start, infix_token(op), p + infix_sym(op).len()),
{
    assert(t.subrange(p, p + infix_sym(op).len())[0] == t[p]);
    if infix_sym(op).len() == 2 {
        assert(t.subrange(p, p + infix_sym(op).len())[1] == t[p + 1]);
    }
}

/// Re-parsing the printed form of a binary expression over two integer
/// literals yields a program whose view is exactly that expression as a
/// statement. With `lemma_same_view_same_evaluation` this is the round
/// trip: printing and re-parsing preserves what the expression evaluates
/// to.
#[verifier::rlimit(100)]
#[verifier::spinoff_prover]
pub fn reparse_infix_expression(op: Infix, a: i64, b: i64) -> (program: Vec<Statement>)
    requires
        0 <= a,
        0 <= b,
    ensures
        stmts_view(program@) == seq![
            StmtV::Expression(
                ExprV::Infix(
                    op,
                    Box::new(ExprV::Integer(a as int)),
                    Box::new(ExprV::Integer(b as int)),
                ),
            ),
        ],
{
    let e = Expression::Infix(
        op,
        Box::new(Expression::Integer(a)),
        Box::new(Expression::Integer(b)),
    );
    let mut src = expression_text(&e);
    push_char(&mut src, ';');
    let ghost t = src@;
    let ghost ka = dec_digits(a as int).len() as int;
    let ghost kop = infix_sym(op).len() as int;
    let ghost pb = ka + 1 + kop + 1;
    let ghost kb = dec_digits(b as int).len() as int;
    proof {
        assert(t == dec_digits(a as int) + seq![' '] + infix_sym(op) + seq![' '] + dec_digits(
            b as int,
        ) + seq![';']);
        assert(t.len() == pb + kb + 1);
        assert(t.subrange(0, ka) =~= dec_digits(a as int));
        assert(t[ka] == ' ');
        assert(t.subrange(ka + 1, ka + 1 + kop) =~= infix_sym(op));
        assert(t[ka + 1 + kop] == ' ');
        assert(t.subrange(pb, pb + kb) =~= dec_digits(b as int));
        assert(t[pb + kb] == ';');
        lemma_digits_val_of_rep(t, 0, a as int);
        lemma_digits_end_is(t, 0, ka);
        lemma_digits_val_of_rep(t, pb, b as int);
        lemma_digits_end_is(t, pb, pb + kb);
    }
    let lexer = Lexer::new(src.as_str());
    let mut parser = Parser::new(lexer);
    proof {
        let mid = choose|mid: int|
            token_scan(t, 0, parser.current(), mid) && token_scan(t, mid, parser.peek(), parser.pos());
        assert(is_digit_char(t[0]));
        assert(skip_ws_from(t, 0) == 0);
        assert(digits_end(t, 0) == ka);
        assert(digits_val(t, 0, ka) == a as int);
        assert(digits_val(t, 0, ka) <= i64::MAX);
        assert(!(t[0] == '=' || t[0] == '!' || t[0] == '+' || t[0] == '-' || t[0] == '>' || t[0]
            == '<' || t[0] == '/' || t[0] == '*' || t[0] == ';' || t[0] == ',' || t[0] == '(' || t[0]
            == ')' || t[0] == '{' || t[0] == '}' || t[0] == '[' || t[0] == ']'));
        assert(!is_letter_char(t[0]));
        assert(parser.current() == Token::Int(a));
        assert(mid == ka);
        assert(t.subrange(ka + 1, ka + 1 + kop)[0] == t[ka + 1]);
        assert(!is_ws_char(t[ka + 1]));
        assert(skip_ws_from(t, ka + 1) == ka + 1);
        assert(skip_ws_from(t, ka) == ka + 1);
        lemma_infix_sym_scan(t, ka, ka + 1, op);
        lemma_token_scan_unique(t, ka, infix_token(op), ka + 1 + kop, parser.peek(), parser.pos());
        assert(token_eq_spec(infix_token(op), parser.peek()));
        assert(parser.peek() == infix_token(op));
        assert(parser.pos() == ka + 1 + kop);
        assert(is_digit_char(t[pb]));
        assert(!is_ws_char(t[pb]));
        assert(skip_ws_from(t, pb) == pb);
        assert(skip_ws_from(t, ka + 1 + kop) == pb);
        assert(digits_val(t, pb, pb + kb) == b as int);
        assert(token_scan(t, ka + 1 + kop, Token::Int(b), pb + kb));
        assert(skip_ws_from(t, pb + kb) == pb + kb);
        assert(token_scan(t, pb + kb, Token::Semicolon, t.len() as int));
        assert(parser.text() == t);
        assert(at_infix_statement(parser, a, op, b, pb + kb));
    }
    let program = parser.parse();
    program
}

/// Re-parsing the printed form of a binary expression whose right operand
/// is itself a binary expression over integer literals, the inner operator
/// binding tighter than the outer, yields a program whose view is exactly
/// the original nested expression: precedence climbing restores the
/// grouping the printer flattened.
#[verifier::rlimit(100)]
#[verifier::spinoff_prover]
pub fn reparse_nested_infix_expression(
    op1: Infix,
    op2: Infix,
    a1: i64,
    a2: i64,
    b2: i64,
) -> (program: Vec<Statement>)
    requires
        0 <= a1,
        0 <= a2,
        0 <= b2,
        order_rank(token_order_spec(infix_token(op1))) < order_rank(
            token_order_spec(infix_token(op2)),
        ),
    ensures
        stmts_view(program@) == seq![
            StmtV::Expression(
                ExprV::Infix(
                    op1,
                    Box::new(ExprV::Integer(a1 as int)),
                    Box::new(
                        ExprV::Infix(
                            op2,
                            Box::new(ExprV::Integer(a2 as int)),
                            Box::new(ExprV::Integer(b2 as int)),
                        ),
                    ),
                ),
            ),
        ],
{
    let e = Expression::Infix(
        op1,
        Box::new(Expression::Integer(a1)),
        Box::new(
            Expression::Infix(
                op2,
                Box::new(Expression::Integer(a2)),
                Box::new(Expression::Integer(b2)),
            ),
        ),
    );
    let mut src = expression_text(&e);
    push_char(&mut src, ';');
    let ghost t = src@;
    let ghost k1 = dec_digits(a1 as int).len() as int;
    let ghost ko1 = infix_sym(op1).len() as int;
    let ghost p2 = k1 + 1 + ko1 + 1;
    let ghost k2 = dec_digits(a2 as int).len() as int;
    let ghost ko2 = infix_sym(op2).len() as int;
    let ghost p3 = p2 + k2 + 1 + ko2 + 1;
    let ghost k3 = dec_digits(b2 as int).len() as int;
    proof {
        assert(t == dec_digits(a1 as int) + seq![' '] + infix_sym(op1) + seq![' '] + dec_digits(
            a2 as int,
        ) + seq![' '] + infix_sym(op2) + seq![' '] + dec_digits(b2 as int) + seq![';']);
        assert(t.len() == p3 + k3 + 1);
        assert(t.subrange(0, k1) =~= dec_digits(a1 as int));
        assert(t[k1] == ' ');
        assert(t.subrange(k1 + 1, k1 + 1 + ko1) =~= infix_sym(op1));
        assert(t[k1 + 1 + ko1] == ' ');
        assert(t.subrange(p2, p2 + k2) =~= dec_digits(a2 as int));
        assert(t[p2 + k2] == ' ');
        assert(t.subrange(p2 + k2 + 1, p2 + k2 + 1 + ko2) =~= infix_sym(op2));
        assert(t[p2 + k2 + 1 + ko2] == ' ');
        assert(t.subrange(p3, p3 + k3) =~= dec_digits(b2 as int));
        assert(t[p3 + k3] == ';');
        lemma_digits_val_of_rep(t, 0, a1 as int);
        lemma_digits_end_is(t, 0, k1);
        lemma_digits_val_of_rep(t, p2, a2 as int);
        lemma_digits_end_is(t, p2, p2 + k2);
        lemma_digits_val_of_rep(t, p3, b2 as int);
        lemma_digits_end_is(t, p3, p3 + k3);
    }
    let lexer = Lexer::new(src.as_str());
    let mut parser = Parser::new(lexer);
    proof {
        let mid = choose|mid: int|
            token_scan(t, 0, parser.current(), mid) && token_scan(t, mid, parser.peek(), parser.pos());
        assert(is_digit_char(t[0]));
        assert(skip_ws_from(t, 0) == 0);
        assert(digits_end(t, 0) == k1);
        assert(digits_val(t, 0, k1) == a1 as int);
        assert(parser.current() == Token::Int(a1));
        assert(mid == k1);
        assert(t.subrange(k1 + 1, k1 + 1 + ko1)[0] == t[k1 + 1]);
        assert(!is_ws_char(t[k1 + 1]));
        assert(skip_ws_from(t, k1 + 1) == k1 + 1);
        assert(skip_ws_from(t, k1) == k1 + 1);
        lemma_infix_sym_scan(t, k1, k1 + 1, op1);
        lemma_token_scan_unique(
            t,
            k1,
            infix_token(op1),
            k1 + 1 + ko1,
            parser.peek(),
            parser.pos(),
        );
        assert(token_eq_spec(infix_token(op1), parser.peek()));
        assert(parser.peek() == infix_token(op1));
        assert(parser.pos() == k1 + 1 + ko1);
        assert(is_digit_char(t[p2]));
        assert(!is_ws_char(t[p2]));
        assert(skip_ws_from(t, p2) == p2);
        assert(skip_ws_from(t, k1 + 1 + ko1) == p2);
        assert(digits_val(t, p2, p2 + k2) == a2 as int);
        assert(token_scan(t, k1 + 1 + ko1, Token::Int(a2), p2 + k2));
        assert(t.subrange(p2 + k2 + 1, p2 + k2 + 1 + ko2)[0] == t[p2 + k2 + 1]);
        assert(!is_ws_char(t[p2 + k2 + 1]));
        assert(skip_ws_from(t, p2 + k2 + 1) == p2 + k2 + 1);
        assert(skip_ws_from(t, p2 + k2) == p2 + k2 + 1);
        lemma_infix_sym_scan(t, p2 + k2, p2 + k2 + 1, op2);
        assert(token_scan(t, p2 + k2, infix_token(op2), p2 + k2 + 1 + ko2));
        assert(is_digit_char(t[p3]));
        assert(!is_ws_char(t[p3]));
        assert(skip_ws_from(t, p3) == p3);
        assert(skip_ws_from(t, p2 + k2 + 1 + ko2) == p3);
        assert(digits_val(t, p3, p3 + k3) == b2 as int);
        assert(token_scan(t, p2 + k2 + 1 + ko2, Token::Int(b2), p3 + k3));
        assert(skip_ws_from(t, p3 + k3) == p3 + k3);
        assert(token_scan(t, p3 + k3, Token::Semicolon, t.len() as int));
        assert(parser.text() == t);
        assert(at_infix2_statement(
            parser,
            a1,
            op1,
            a2,
            op2,
            b2,
            p2 + k2,
            p2 + k2 + 1 + ko2,
            p3 + k3,
        ));
    }
    let program = parser.parse();
    program
}

/// Programs with one view evaluate alike: evaluation is a function of the
/// view, so a re-parsed program that shares the original's view shares its
/// result, its environment effect and its print log.
pub proof fn lemma_same_view_same_evaluation(
    s1: Seq<StmtV>,
    s2: Seq<StmtV>,
    env: Map<Seq<char>, ObjV>,
    out: Seq<ObjV>,
    fuel: nat,
)
    requires
        s1 == s2,
    ensures
        seval_stmts(s1, env, out, fuel, ObjV::Null) == seval_stmts(s2, env, out, fuel, ObjV::Null),
{
}

} // verus!
