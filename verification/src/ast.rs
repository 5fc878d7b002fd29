//! The abstract syntax tree that the parser builds, together with its
//! mathematical view: each node maps to a ghost value over `Seq` and `int`,
//! and every contract about parsing and evaluation speaks of those views.
use vstd::prelude::*;
use vstd::string::StrSliceExecFns;
use vstd::string::StringExecFns;
use crate::token::{int_to_string, push_char, dec_digits};

verus! {

/// A parsed program: the sequence of top-level statements.
pub struct Program {
    pub statements: Vec<Statement>,
}

impl Program {
    pub fn new() -> (p: Program)
        ensures
            p.statements@.len() == 0,
    {
        Program { statements: Vec::new() }
    }
}

/// One statement of the language. `Empty` is the recoverable-failure
/// placeholder the parser produces for an illegal token.
#[derive(Debug, PartialEq)]
pub enum Statement {
    Let(String, Expression),
    Return(Expression),
    Expression(Expression),
    Block(Vec<Statement>),
    Empty,
}

/// One expression of the language. A matrix literal holds its rows; an index
/// expression carries an optional second index (`a[i]` versus `a[i][j]`).
#[derive(Debug, PartialEq)]
pub enum Expression {
    Bool(bool),
    Identifier(String),
    Integer(i64),
    Call { func: Box<Expression>, args: Vec<Expression> },
    Array(Vec<Vec<Expression>>),
    Function(String, Vec<String>, Vec<Statement>),
    Infix(Infix, Box<Expression>, Box<Expression>),
    Prefix(Prefix, Box<Expression>),
    Index(Box<Expression>, Box<Expression>, Option<Box<Expression>>),
    If(Box<Expression>, Vec<Statement>, Option<Vec<Statement>>),
}

/// The binary operators.
#[derive(Debug, Clone, Copy, PartialEq, Eq, Structural)]
pub enum Infix {
    Plus,
    Minus,
    Divide,
    Multiply,
    Equal,
    NotEqual,
    MoreThanAndEqual,
    MoreThan,
    LessThanAndEqual,
    LessThan,
    Assign,
}

/// The prefix operators.
#[derive(Debug, Clone, Copy, PartialEq, Eq, Structural)]
pub enum Prefix {
    Plus,
    Minus,
    Not,
}

/// Mathematical view of a statement.
#[verifier::ext_equal]
pub enum StmtV {
    Let(Seq<char>, ExprV),
    Return(ExprV),
    Expression(ExprV),
    Block(Seq<StmtV>),
    Empty,
}

/// Mathematical view of an expression.
#[verifier::ext_equal]
pub enum ExprV {
    Bool(bool),
    Identifier(Seq<char>),
    Integer(int),
    Call(Box<ExprV>, Seq<ExprV>),
    Array(Seq<Seq<ExprV>>),
    Function(Seq<char>, Seq<Seq<char>>, Seq<StmtV>),
    Infix(Infix, Box<ExprV>, Box<ExprV>),
    Prefix(Prefix, Box<ExprV>),
    Index(Box<ExprV>, Box<ExprV>, Option<Box<ExprV>>),
    If(Box<ExprV>, Seq<StmtV>, Option<Seq<StmtV>>),
}

pub open spec fn expr_view(e: Expression) -> ExprV
    decreases e,
{
    match e {
        Expression::Bool(b) => ExprV::Bool(b),
        Expression::Identifier(name) => ExprV::Identifier(name@),
        Expression::Integer(n) => ExprV::Integer(n as int),
        Expression::Call { func, args } => ExprV::Call(
            Box::new(expr_view(*func)),
            exprs_view(args@),
        ),
        Expression::Array(rows) => ExprV::Array(expr_rows_view(rows@)),
        Expression::Function(name, params, body) => ExprV::Function(
            name@,
            params@.map_values(|p: String| p@),
            stmts_view(body@),
        ),
        Expression::Infix(op, lhs, rhs) => ExprV::Infix(
            op,
            Box::new(expr_view(*lhs)),
            Box::new(expr_view(*rhs)),
        ),
        Expression::Prefix(op, inner) => ExprV::Prefix(op, Box::new(expr_view(*inner))),
        Expression::Index(target, first, second) => ExprV::Index(
            Box::new(expr_view(*target)),
            Box::new(expr_view(*first)),
            match second {
                Some(s) => Some(Box::new(expr_view(*s))),
                None => None,
            },
        ),
        Expression::If(cond, then_body, else_body) => ExprV::If(
            Box::new(expr_view(*cond)),
            stmts_view(then_body@),
            match else_body {
                Some(b) => Some(stmts_view(b@)),
                None => None,
            },
        ),
    }
}

pub open spec fn exprs_view(v: Seq<Expression>) -> Seq<ExprV>
    decreases v,
{
    if v.len() == 0 {
        Seq::empty()
    } else {
        exprs_view(v.drop_last()).push(expr_view(v.last()))
    }
}

pub open spec fn expr_rows_view(v: Seq<Vec<Expression>>) -> Seq<Seq<ExprV>>
    decreases v,
{
    if v.len() == 0 {
        Seq::empty()
    } else {
        expr_rows_view(v.drop_last()).push(exprs_view(v.last()@))
    }
}

pub open spec fn stmt_view(s: Statement) -> StmtV
    decreases s,
{
    match s {
        Statement::Let(name, e) => StmtV::Let(name@, expr_view(e)),
        Statement::Return(e) => StmtV::Return(expr_view(e)),
        Statement::Expression(e) => StmtV::Expression(expr_view(e)),
        Statement::Block(body) => StmtV::Block(stmts_view(body@)),
        Statement::Empty => StmtV::Empty,
    }
}

pub open spec fn stmts_view(v: Seq<Statement>) -> Seq<StmtV>
    decreases v,
{
    if v.len() == 0 {
        Seq::empty()
    } else {
        stmts_view(v.drop_last()).push(stmt_view(v.last()))
    }
}

impl View for Expression {
    type V = ExprV;

    open spec fn view(&self) -> ExprV {
        expr_view(*self)
    }
}

impl View for Statement {
    type V = StmtV;

    open spec fn view(&self) -> StmtV {
        stmt_view(*self)
    }
}

impl View for Program {
    type V = Seq<StmtV>;

    open spec fn view(&self) -> Seq<StmtV> {
        stmts_view(self.statements@)
    }
}

/// The length of a statement sequence's view equals the sequence's length,
/// and each element's view stands at its own index.
pub broadcast proof fn lemma_stmts_view_index(v: Seq<Statement>)
    ensures
        #[trigger] stmts_view(v).len() == v.len(),
        forall|i: int| 0 <= i < v.len() ==> stmts_view(v)[i] == stmt_view(v[i]),
    decreases v,
{
    if v.len() > 0 {
        lemma_stmts_view_index(v.drop_last());
        assert forall|i: int| 0 <= i < v.len() implies stmts_view(v)[i] == stmt_view(v[i]) by {
            if i < v.len() - 1 {
                assert(v.drop_last()[i] == v[i]);
            }
        }
    }
}

/// The same, for expression sequences.
pub broadcast proof fn lemma_exprs_view_index(v: Seq<Expression>)
    ensures
        #[trigger] exprs_view(v).len() == v.len(),
        forall|i: int| 0 <= i < v.len() ==> exprs_view(v)[i] == expr_view(v[i]),
    decreases v,
{
    if v.len() > 0 {
        lemma_exprs_view_index(v.drop_last());
        assert forall|i: int| 0 <= i < v.len() implies exprs_view(v)[i] == expr_view(v[i]) by {
            if i < v.len() - 1 {
                assert(v.drop_last()[i] == v[i]);
            }
        }
    }
}

/// The same, for the rows of a matrix literal.
pub broadcast proof fn lemma_expr_rows_view_index(v: Seq<Vec<Expression>>)
    ensures
        #[trigger] expr_rows_view(v).len() == v.len(),
        forall|i: int| 0 <= i < v.len() ==> expr_rows_view(v)[i] == exprs_view(v[i]@),
    decreases v,
{
    if v.len() > 0 {
        lemma_expr_rows_view_index(v.drop_last());
        assert forall|i: int| 0 <= i < v.len() implies expr_rows_view(v)[i] == exprs_view(v[i]@) by {
            if i < v.len() - 1 {
                assert(v.drop_last()[i] == v[i]);
            }
        }
    }
}

/// Appending to a sequence appends to its view.
pub proof fn lemma_stmts_view_push(v: Seq<Statement>, x: Statement)
    ensures
        stmts_view(v.push(x)) == stmts_view(v).push(stmt_view(x)),
{
    assert(v.push(x).drop_last() =~= v);
    assert(v.push(x).last() == x);
}

/// The same, for expression sequences.
pub proof fn lemma_exprs_view_push(v: Seq<Expression>, x: Expression)
    ensures
        exprs_view(v.push(x)) == exprs_view(v).push(expr_view(x)),
{
    assert(v.push(x).drop_last() =~= v);
    assert(v.push(x).last() == x);
}

/// The same, for matrix-literal rows.
pub proof fn lemma_expr_rows_view_push(v: Seq<Vec<Expression>>, x: Vec<Expression>)
    ensures
        expr_rows_view(v.push(x)) == expr_rows_view(v).push(exprs_view(x@)),
{
    assert(v.push(x).drop_last() =~= v);
    assert(v.push(x).last() == x);
}

/// Copies an expression; the copy has the same view.
pub fn clone_expression(e: &Expression) -> (r: Expression)
    ensures
        r@ == e@,
    decreases *e,
{
    match e {
        Expression::Bool(b) => Expression::Bool(*b),
        Expression::Identifier(name) => Expression::Identifier(name.clone()),
        Expression::Integer(n) => Expression::Integer(*n),
        Expression::Call { func, args } => Expression::Call {
            func: Box::new(clone_expression(&**func)),
            args: clone_expressions(args),
        },
        Expression::Array(rows) => Expression::Array(clone_expression_rows(rows)),
        Expression::Function(name, params, body) => Expression::Function(
            name.clone(),
            clone_strings(params),
            clone_statements(body),
        ),
        Expression::Infix(op, lhs, rhs) => Expression::Infix(
            *op,
            Box::new(clone_expression(&**lhs)),
            Box::new(clone_expression(&**rhs)),
        ),
        Expression::Prefix(op, inner) => Expression::Prefix(
            *op,
            Box::new(clone_expression(&**inner)),
        ),
        Expression::Index(target, first, second) => Expression::Index(
            Box::new(clone_expression(&**target)),
            Box::new(clone_expression(&**first)),
            match second {
                Some(s) => Some(Box::new(clone_expression(&**s))),
                None => None,
            },
        ),
        Expression::If(cond, then_body, else_body) => Expression::If(
            Box::new(clone_expression(&**cond)),
            clone_statements(then_body),
            match else_body {
                Some(b) => Some(clone_statements(b)),
                None => None,
            },
        ),
    }
}

/// Copies a sequence of expressions; the copy has the same view.
pub fn clone_expressions(v: &Vec<Expression>) -> (r: Vec<Expression>)
    ensures
        r@.len() == v@.len(),
        exprs_view(r@) == exprs_view(v@),
        forall|i: int| 0 <= i < v@.len() ==> #[trigger] r@[i]@ == v@[i]@,
    decreases v@,
{
    let mut r: Vec<Expression> = Vec::new();
    let mut i: usize = 0;
    while i < v.len()
        invariant
            i <= v@.len(),
            r@.len() == i,
            forall|j: int| 0 <= j < i ==> #[trigger] r@[j]@ == v@[j]@,
        decreases v@.len() - i,
    {
        let c = clone_expression(&v[i]);
        r.push(c);
        i = i + 1;
    }
    proof {
        lemma_exprs_view_index(r@);
        lemma_exprs_view_index(v@);
        assert forall|j: int| 0 <= j < v@.len() implies exprs_view(r@)[j] == exprs_view(v@)[j] by {
            assert(r@[j]@ == v@[j]@);
        }
        assert(exprs_view(r@) =~= exprs_view(v@));
    }
    r
}

/// Copies the rows of a matrix literal; the copy has the same view.
pub fn clone_expression_rows(v: &Vec<Vec<Expression>>) -> (r: Vec<Vec<Expression>>)
    ensures
        r@.len() == v@.len(),
        expr_rows_view(r@) == expr_rows_view(v@),
    decreases v@,
{
    let mut r: Vec<Vec<Expression>> = Vec::new();
    let mut i: usize = 0;
    while i < v.len()
        invariant
            i <= v@.len(),
            r@.len() == i,
            forall|j: int| 0 <= j < i ==> #[trigger] exprs_view(r@[j]@) == exprs_view(v@[j]@),
        decreases v@.len() - i,
    {
        let c = clone_expressions(&v[i]);
        r.push(c);
        i = i + 1;
    }
    proof {
        lemma_expr_rows_view_index(r@);
        lemma_expr_rows_view_index(v@);
        assert(expr_rows_view(r@) =~= expr_rows_view(v@));
    }
    r
}

/// Copies a vector of names; the copy has the same view.
pub fn clone_strings(v: &Vec<String>) -> (r: Vec<String>)
    ensures
        r@ == v@,
{
    let mut r: Vec<String> = Vec::new();
    let mut i: usize = 0;
    while i < v.len()
        invariant
            i <= v@.len(),
            r@.len() == i,
            forall|j: int| 0 <= j < i ==> #[trigger] r@[j] == v@[j],
        decreases v@.len() - i,
    {
        let c = v[i].clone();
        r.push(c);
        i = i + 1;
    }
    proof {
        assert(r@ =~= v@);
    }
    r
}

/// Copies a statement; the copy has the same view.
pub fn clone_statement(s: &Statement) -> (r: Statement)
    ensures
        r@ == s@,
    decreases *s,
{
    match s {
        Statement::Let(name, e) => Statement::Let(name.clone(), clone_expression(e)),
        Statement::Return(e) => Statement::Return(clone_expression(e)),
        Statement::Expression(e) => Statement::Expression(clone_expression(e)),
        Statement::Block(body) => Statement::Block(clone_statements(body)),
        Statement::Empty => Statement::Empty,
    }
}

/// Copies a sequence of statements; the copy has the same view.
pub fn clone_statements(v: &Vec<Statement>) -> (r: Vec<Statement>)
    ensures
        r@.len() == v@.len(),
        stmts_view(r@) == stmts_view(v@),
        forall|i: int| 0 <= i < v@.len() ==> #[trigger] r@[i]@ == v@[i]@,
    decreases v@,
{
    let mut r: Vec<Statement> = Vec::new();
    let mut i: usize = 0;
    while i < v.len()
        invariant
            i <= v@.len(),
            r@.len() == i,
            forall|j: int| 0 <= j < i ==> #[trigger] r@[j]@ == v@[j]@,
        decreases v@.len() - i,
    {
        let c = clone_statement(&v[i]);
        r.push(c);
        i = i + 1;
    }
    proof {
        lemma_stmts_view_index(r@);
        lemma_stmts_view_index(v@);
        assert forall|j: int| 0 <= j < v@.len() implies stmts_view(r@)[j] == stmts_view(v@)[j] by {
            assert(r@[j]@ == v@[j]@);
        }
        assert(stmts_view(r@) =~= stmts_view(v@));
    }
    r
}

/// The symbol of each binary operator, as the printer writes it.
pub open spec fn infix_sym(op: Infix) -> Seq<char> {
    match op {
        Infix::Plus => seq!['+'],
        Infix::Minus => seq!['-'],
        Infix::Divide => seq!['/'],
        Infix::Multiply => seq!['*'],
        Infix::Equal => seq!['=', '='],
        Infix::NotEqual => seq!['!', '='],
        Infix::MoreThanAndEqual => seq!['>', '='],
        Infix::MoreThan => seq!['>'],
        Infix::LessThanAndEqual => seq!['<', '='],
        Infix::LessThan => seq!['<'],
        Infix::Assign => seq!['='],
    }
}

/// Writes a binary operator's symbol.
pub fn infix_text(op: Infix) -> (r: String)
    ensures
        r@ == infix_sym(op),
{
    let mut s = String::new();
    match op {
        Infix::Plus => {
            push_char(&mut s, '+');
        },
        Infix::Minus => {
            push_char(&mut s, '-');
        },
        Infix::Divide => {
            push_char(&mut s, '/');
        },
        Infix::Multiply => {
            push_char(&mut s, '*');
        },
        Infix::Equal => {
            push_char(&mut s, '=');
            push_char(&mut s, '=');
        },
        Infix::NotEqual => {
            push_char(&mut s, '!');
            push_char(&mut s, '=');
        },
        Infix::MoreThanAndEqual => {
            push_char(&mut s, '>');
            push_char(&mut s, '=');
        },
        Infix::MoreThan => {
            push_char(&mut s, '>');
        },
        Infix::LessThanAndEqual => {
            push_char(&mut s, '<');
            push_char(&mut s, '=');
        },
        Infix::LessThan => {
            push_char(&mut s, '<');
        },
        Infix::Assign => {
            push_char(&mut s, '=');
        },
    }
    proof {
        assert(s@ =~= infix_sym(op));
    }
    s
}

/// Writes a prefix operator's symbol.
pub fn prefix_text(op: Prefix) -> (r: String) {
    let mut s = String::new();
    match op {
        Prefix::Plus => {
            push_char(&mut s, '+');
        },
        Prefix::Minus => {
            push_char(&mut s, '-');
        },
        Prefix::Not => {
            push_char(&mut s, '!');
        },
    }
    s
}

/// Writes an integer, the sign first for a negative one.
pub fn integer_text(n: i64) -> (r: String)
    ensures
        n >= 0 ==> r@ == dec_digits(n as int),
{
    if n >= 0 {
        int_to_string(n)
    } else {
        let mut s = String::new();
        push_char(&mut s, '-');
        if n == i64::MIN {
            s.append("9223372036854775808");
        } else {
            s.append(int_to_string(-n).as_str());
        }
        s
    }
}

/// Writes an expression as source text. A binary expression of two
/// non-negative integer literals comes out exactly as the literal, a space,
/// the operator's symbol, a space, and the other literal — the form the
/// parser reads back.
#[verifier::loop_isolation(false)]
#[verifier::rlimit(100)]
#[verifier::spinoff_prover]
pub fn expression_text(e: &Expression) -> (r: String)
    ensures
        (*e) matches Expression::Integer(a) ==> (a >= 0 ==> r@ == dec_digits(a as int)),
        (*e) matches Expression::Infix(op, lhs, rhs) ==> ((*lhs) matches Expression::Integer(a)
            ==> ((*rhs) matches Expression::Integer(b) ==> (a >= 0 && b >= 0 ==> r@ == dec_digits(
            a as int,
        ) + seq![' '] + infix_sym(op) + seq![' '] + dec_digits(b as int)))),
        (*e) matches Expression::Infix(op1, lhs, rhs) ==> ((*lhs) matches Expression::Integer(a1)
            ==> ((*rhs) matches Expression::Infix(op2, l2, r2) ==> ((*l2) matches
            Expression::Integer(a2) ==> ((*r2) matches Expression::Integer(b2) ==> (a1 >= 0 && a2
            >= 0 && b2 >= 0 ==> r@ == dec_digits(a1 as int) + seq![' '] + infix_sym(op1)
            + seq![' '] + dec_digits(a2 as int) + seq![' '] + infix_sym(op2) + seq![' ']
            + dec_digits(b2 as int)))))),
    decreases *e,
{
    match e {
        Expression::Bool(b) => {
            if *b {
                String::from_str("true")
            } else {
                String::from_str("false")
            }
        },
        Expression::Identifier(name) => name.clone(),
        Expression::Integer(n) => integer_text(*n),
        Expression::Call { func, args } => {
            let mut s = expression_text(&**func);
            push_char(&mut s, '(');
            let mut i: usize = 0;
            while i < args.len()
                decreases args@.len() - i,
            {
                if i > 0 {
                    s.append(", ");
                }
                s.append(expression_text(&args[i]).as_str());
                i = i + 1;
            }
            push_char(&mut s, ')');
            s
        },
        Expression::Array(rows) => {
            let mut s = String::from_str("[");
            let mut i: usize = 0;
            while i < rows.len()
                decreases rows@.len() - i,
            {
                if i > 0 {
                    push_char(&mut s, ' ');
                }
                push_char(&mut s, '{');
                let row = &rows[i];
                let mut j: usize = 0;
                while j < row.len()
                    decreases row@.len() - j,
                {
                    if j > 0 {
                        s.append(", ");
                    }
                    s.append(expression_text(&row[j]).as_str());
                    j = j + 1;
                }
                push_char(&mut s, '}');
                i = i + 1;
            }
            push_char(&mut s, ']');
            s
        },
        Expression::Function(name, params, body) => {
            let mut s = String::from_str("fn ");
            s.append(name.as_str());
            push_char(&mut s, '(');
            let mut i: usize = 0;
            while i < params.len()
                decreases params@.len() - i,
            {
                if i > 0 {
                    s.append(", ");
                }
                s.append(params[i].as_str());
                i = i + 1;
            }
            s.append(") { ");
            let mut j: usize = 0;
            while j < body.len()
                decreases body@.len() - j,
            {
                s.append(statement_text(&body[j]).as_str());
                push_char(&mut s, ' ');
                j = j + 1;
            }
            push_char(&mut s, '}');
            s
        },
        Expression::Infix(op, lhs, rhs) => {
            let mut s = expression_text(&**lhs);
            push_char(&mut s, ' ');
            s.append(infix_text(*op).as_str());
            push_char(&mut s, ' ');
            s.append(expression_text(&**rhs).as_str());
            proof {
                match (&**lhs, &**rhs) {
                    (Expression::Integer(a), Expression::Integer(b)) => {
                        if *a >= 0 && *b >= 0 {
                            assert(s@ =~= dec_digits(*a as int) + seq![' '] + infix_sym(*op)
                                + seq![' '] + dec_digits(*b as int));
                        }
                    },
                    (Expression::Integer(a1), Expression::Infix(op2, l2, r2)) => {
                        match (&**l2, &**r2) {
                            (Expression::Integer(a2), Expression::Integer(b2)) => {
                                if *a1 >= 0 && *a2 >= 0 && *b2 >= 0 {
                                    assert(s@ =~= dec_digits(*a1 as int) + seq![' '] + infix_sym(
                                        *op,
                                    ) + seq![' '] + dec_digits(*a2 as int) + seq![' ']
                                        + infix_sym(*op2) + seq![' '] + dec_digits(*b2 as int));
                                }
                            },
                            _ => {},
                        }
                    },
                    _ => {},
                }
            }
            s
        },
        Expression::Prefix(op, inner) => {
            let mut s = prefix_text(*op);
            s.append(expression_text(&**inner).as_str());
            s
        },
        Expression::Index(target, first, second) => {
            let mut s = expression_text(&**target);
            push_char(&mut s, '[');
            s.append(expression_text(&**first).as_str());
            push_char(&mut s, ']');
            match second {
                Some(sec) => {
                    push_char(&mut s, '[');
                    s.append(expression_text(&**sec).as_str());
                    push_char(&mut s, ']');
                },
                None => {},
            }
            s
        },
        Expression::If(cond, then_body, else_body) => {
            let mut s = String::from_str("if (");
            s.append(expression_text(&**cond).as_str());
            s.append(") { ");
            let mut i: usize = 0;
            while i < then_body.len()
                decreases then_body@.len() - i,
            {
                s.append(statement_text(&then_body[i]).as_str());
                push_char(&mut s, ' ');
                i = i + 1;
            }
            push_char(&mut s, '}');
            match else_body {
                Some(eb) => {
                    s.append(" else { ");
                    let mut j: usize = 0;
                    while j < eb.len()
                        decreases eb@.len() - j,
                    {
                        s.append(statement_text(&eb[j]).as_str());
                        push_char(&mut s, ' ');
                        j = j + 1;
                    }
                    push_char(&mut s, '}');
                },
                None => {},
            }
            s
        },
    }
}

/// Writes a statement as source text.
#[verifier::loop_isolation(false)]
pub fn statement_text(s: &Statement) -> (r: String)
    decreases *s,
{
    match s {
        Statement::Let(name, e) => {
            let mut out = String::from_str("let ");
            out.append(name.as_str());
            out.append(" = ");
            out.append(expression_text(e).as_str());
            push_char(&mut out, ';');
            out
        },
        Statement::Return(e) => {
            let mut out = String::from_str("return ");
            out.append(expression_text(e).as_str());
            push_char(&mut out, ';');
            out
        },
        Statement::Expression(e) => {
            let mut out = expression_text(e);
            push_char(&mut out, ';');
            out
        },
        Statement::Block(body) => {
            let mut out = String::from_str("{ ");
            let mut i: usize = 0;
            while i < body.len()
                decreases body@.len() - i,
            {
                out.append(statement_text(&body[i]).as_str());
                push_char(&mut out, ' ');
                i = i + 1;
            }
            push_char(&mut out, '}');
            out
        },
        Statement::Empty => String::new(),
    }
}

} // verus!
