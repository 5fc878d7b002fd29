use matlang::env::Env;
use matlang::evaluate::eval_return;
use matlang::lexer::Lexer;
use matlang::object::Object;
use matlang::parser::Parser;
use matlang::semantics::EvalError;
use matlang::ast::{expression_text, Expression, Infix};
use matlang::laws::{eval_integer_literal, reparse_infix_expression, reparse_nested_infix_expression};
use matlang::token::{get_identifier, int_to_string, Token};

fn eval_err(input: &str, kind: EvalError) {
    let lexer = Lexer::new(input);
    let mut parser = Parser::new(lexer);
    let program = parser.parse();
    let mut env = Env::new();
    let mut out: Vec<Object> = Vec::new();
    let result = eval_return(&program, &mut env, &mut out);
    assert_eq!(result, Err(kind));
}

#[test]
fn test_dot_product_shape_mismatch() {
    eval_err(
        "dot_product([{1, 2, 3}], [{1, 2} {3, 4}]);",
        EvalError::ShapeMismatch,
    );
}

#[test]
fn test_get_row_out_of_range() {
    eval_err("get_row(0, [{1, 2} {3, 4}]);", EvalError::IndexOutOfRange);
    eval_err("get_row(3, [{1, 2} {3, 4}]);", EvalError::IndexOutOfRange);
}

#[test]
fn test_get_col_out_of_range() {
    eval_err("get_col(0, [{1, 2} {3, 4}]);", EvalError::IndexOutOfRange);
    eval_err("get_col(3, [{1, 2} {3, 4}]);", EvalError::IndexOutOfRange);
}

#[test]
fn test_transpose_non_rectangular() {
    eval_err("transpose_matrix([{1, 2, 3} {4, 5}]);", EvalError::ShapeMismatch);
}

#[test]
fn test_add_matrix_shape_mismatch() {
    eval_err(
        "add_matrix([{1, 2}], [{1, 2} {3, 4}]);",
        EvalError::ShapeMismatch,
    );
}

#[test]
fn test_unbound_identifier() {
    eval_err("nowhere;", EvalError::UnboundIdentifier);
}

#[test]
fn test_unknown_builtin() {
    eval_err("frobnicate(1);", EvalError::UnknownBuiltin);
}

#[test]
fn test_type_mismatch_bang_on_integer() {
    eval_err("!5;", EvalError::TypeMismatch);
}

#[test]
fn test_divide_by_zero() {
    eval_err("1 / 0;", EvalError::DivideByZero);
}

#[test]
fn test_overflow() {
    eval_err("9223372036854775807 + 1;", EvalError::Overflow);
}

#[test]
fn test_let_missing_assign_reports_diagnostic() {
    let lexer = Lexer::new("let x 5;");
    let mut parser = Parser::new(lexer);
    let _program = parser.parse();
    let errs = parser.get_errors();
    assert!(errs.len() > 0);
    assert!(errs[0].to_text().len() > 0);
}

#[test]
fn test_print_appends_to_log() {
    let lexer = Lexer::new("print(7);");
    let mut parser = Parser::new(lexer);
    let program = parser.parse();
    let mut env = Env::new();
    let mut out: Vec<Object> = Vec::new();
    let result = eval_return(&program, &mut env, &mut out).expect("evaluation failed");
    assert_eq!(result, Object::Integer(7));
    assert_eq!(out, vec![Object::Integer(7)]);
}

#[test]
fn test_print_matrix_filters_rows() {
    let lexer = Lexer::new("print([{1, 2}]);");
    let mut parser = Parser::new(lexer);
    let program = parser.parse();
    let mut env = Env::new();
    let mut out: Vec<Object> = Vec::new();
    let result = eval_return(&program, &mut env, &mut out).expect("evaluation failed");
    let expected = Object::Array(vec![vec![Object::Integer(1), Object::Integer(2)]]);
    assert_eq!(result, expected);
    assert_eq!(out.len(), 1);
}

#[test]
fn test_user_function_call() {
    // a function value is only callable once a let binds it to a name
    let lexer = Lexer::new("double(21);");
    let mut parser = Parser::new(lexer);
    let program = parser.parse();
    let mut env = Env::new();
    let mut out: Vec<Object> = Vec::new();
    let result = eval_return(&program, &mut env, &mut out);
    assert_eq!(result, Err(EvalError::UnknownBuiltin));

    let lexer = Lexer::new("let f = fn g(x) { return 42; }; f(5);");
    let mut parser = Parser::new(lexer);
    let program2 = parser.parse();
    let mut env2 = Env::new();
    let mut out2: Vec<Object> = Vec::new();
    let result2 = eval_return(&program2, &mut env2, &mut out2);
    assert_eq!(result2, Ok(Object::Integer(42)));
}

#[test]
fn test_identifier_operand_is_a_name_reference() {
    // an identifier evaluates to a name reference, which arithmetic rejects
    let lexer = Lexer::new("let f = fn d(x) { return x + x; }; f(21);");
    let mut parser = Parser::new(lexer);
    let program = parser.parse();
    let mut env = Env::new();
    let mut out: Vec<Object> = Vec::new();
    let result = eval_return(&program, &mut env, &mut out);
    assert_eq!(result, Err(EvalError::TypeMismatch));
}

#[test]
fn test_arity_mismatch() {
    let lexer = Lexer::new("let f = fn g(x, y) { return x; }; f(1);");
    let mut parser = Parser::new(lexer);
    let program = parser.parse();
    let mut env = Env::new();
    let mut out: Vec<Object> = Vec::new();
    let result = eval_return(&program, &mut env, &mut out);
    assert_eq!(result, Err(EvalError::ArityMismatch));
}

#[test]
fn test_lexer_token_stream() {
    let mut lexer = Lexer::new("let x = 12 >= y;");
    assert_eq!(lexer.next_token(), Token::Let);
    assert_eq!(lexer.next_token(), Token::Identifier(String::from("x")));
    assert_eq!(lexer.next_token(), Token::Assign);
    assert_eq!(lexer.next_token(), Token::Int(12));
    assert_eq!(lexer.next_token(), Token::MoreThanAndEqual);
    assert_eq!(lexer.next_token(), Token::Identifier(String::from("y")));
    assert_eq!(lexer.next_token(), Token::Semicolon);
    assert_eq!(lexer.next_token(), Token::Eof);
    assert_eq!(lexer.next_token(), Token::Eof);
}

#[test]
fn test_lexer_two_char_operators() {
    let mut lexer = Lexer::new("== != <= >= ++ -- [ ] { }");
    assert_eq!(lexer.next_token(), Token::Equal);
    assert_eq!(lexer.next_token(), Token::NotEqual);
    assert_eq!(lexer.next_token(), Token::LessThanAndEqual);
    assert_eq!(lexer.next_token(), Token::MoreThanAndEqual);
    assert_eq!(lexer.next_token(), Token::Increment);
    assert_eq!(lexer.next_token(), Token::Decrement);
    assert_eq!(lexer.next_token(), Token::LeftBracket);
    assert_eq!(lexer.next_token(), Token::RightBracket);
    assert_eq!(lexer.next_token(), Token::LeftBrace);
    assert_eq!(lexer.next_token(), Token::RightBrace);
    assert_eq!(lexer.next_token(), Token::Eof);
}

#[test]
fn test_keyword_lookup() {
    assert_eq!(get_identifier("let"), Token::Let);
    assert_eq!(get_identifier("fn"), Token::Fn);
    assert_eq!(get_identifier("true"), Token::True);
    assert_eq!(get_identifier("false"), Token::False);
    assert_eq!(get_identifier("if"), Token::If);
    assert_eq!(get_identifier("else"), Token::Else);
    assert_eq!(get_identifier("and"), Token::And);
    assert_eq!(get_identifier("or"), Token::Or);
    assert_eq!(get_identifier("return"), Token::Return);
    assert_eq!(
        get_identifier("banana"),
        Token::Identifier(String::from("banana"))
    );
}

#[test]
fn test_int_to_string() {
    assert_eq!(int_to_string(0), "0");
    assert_eq!(int_to_string(7), "7");
    assert_eq!(int_to_string(1475), "1475");
    assert_eq!(int_to_string(9223372036854775807), "9223372036854775807");
}

#[test]
fn test_integer_literal_law_runs() {
    assert_eq!(eval_integer_literal(0), Ok(Object::Integer(0)));
    assert_eq!(eval_integer_literal(7), Ok(Object::Integer(7)));
    assert_eq!(eval_integer_literal(1475), Ok(Object::Integer(1475)));
}

#[test]
fn test_reparse_infix_law_runs() {
    let program = reparse_infix_expression(Infix::Plus, 100, 100);
    let mut env = Env::new();
    let mut out: Vec<Object> = Vec::new();
    let result = eval_return(&program, &mut env, &mut out);
    assert_eq!(result, Ok(Object::Integer(200)));

    let program = reparse_infix_expression(Infix::LessThanAndEqual, 3, 4);
    let mut env = Env::new();
    let mut out: Vec<Object> = Vec::new();
    let result = eval_return(&program, &mut env, &mut out);
    assert_eq!(result, Ok(Object::Boolean(true)));
}

#[test]
fn test_reparse_nested_infix_law_runs() {
    let program = reparse_nested_infix_expression(Infix::Plus, Infix::Multiply, 1, 2, 3);
    let mut env = Env::new();
    let mut out: Vec<Object> = Vec::new();
    let result = eval_return(&program, &mut env, &mut out);
    assert_eq!(result, Ok(Object::Integer(7)));
}

#[test]
fn test_parser_groups_product_beneath_sum() {
    let lexer = Lexer::new("1 + 2 * 3;");
    let mut parser = Parser::new(lexer);
    let program = parser.parse();
    let expected = Expression::Infix(
        Infix::Plus,
        Box::new(Expression::Integer(1)),
        Box::new(Expression::Infix(
            Infix::Multiply,
            Box::new(Expression::Integer(2)),
            Box::new(Expression::Integer(3)),
        )),
    );
    assert_eq!(program.len(), 1);
    assert_eq!(program[0], matlang::ast::Statement::Expression(expected));
}

#[test]
fn test_expression_text_round_trip() {
    let e = Expression::Infix(
        Infix::Multiply,
        Box::new(Expression::Integer(25)),
        Box::new(Expression::Integer(23)),
    );
    let mut src = expression_text(&e);
    assert_eq!(src, "25 * 23");
    src.push(';');
    let lexer = Lexer::new(&src);
    let mut parser = Parser::new(lexer);
    let program = parser.parse();
    let mut env = Env::new();
    let mut out: Vec<Object> = Vec::new();
    let result = eval_return(&program, &mut env, &mut out);
    assert_eq!(result, Ok(Object::Integer(575)));
}
