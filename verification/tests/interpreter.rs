use matlang::env::Env;
use matlang::evaluate::eval_return;
use matlang::lexer::Lexer;
use matlang::object::Object;
use matlang::parser::Parser;

fn eval(input: &str, val: Object) {
    let lexer = Lexer::new(input);
    let mut parser = Parser::new(lexer);
    let program = parser.parse();
    let mut env = Env::new();
    let mut out: Vec<Object> = Vec::new();
    let result = eval_return(&program, &mut env, &mut out).expect("evaluation failed");
    assert_eq!(result, val);
}

#[test]
fn test_numbers() {
    eval("100;", Object::Integer(100));
    eval("100 + 100;", Object::Integer(200));
    eval("100 - 100;", Object::Integer(0));
    eval("100 * 10;", Object::Integer(1000));
    eval("100 / 10;", Object::Integer(10));
    eval("-100;", Object::Integer(-100));
    eval("-100 + 25 * 23 + 1000;", Object::Integer(1475));
    eval("-100;", Object::Integer(-100));
    eval("-100;", Object::Integer(-100));
}

#[test]
fn test_bools() {
    eval("false;", Object::Boolean(false));
    eval("true;", Object::Boolean(true));
    eval("!false;", Object::Boolean(true));
    eval("!true;", Object::Boolean(false));
}

#[test]
fn test_arrays() {
    let one = Object::Integer(1);
    let two = Object::Integer(2);
    let three = Object::Integer(3);
    let four = Object::Integer(4);
    let five = Object::Integer(5);
    eval(
        "[{1, 2, 3, 4, 5}];",
        Object::Array(vec![vec![one, two, three, four, five]]),
    );

    let one = Object::Integer(1);
    let two = Object::Integer(2);
    let three = Object::Integer(3);
    let four = Object::Integer(4);
    let five = Object::Integer(5);
    eval(
        "[{1+1-1, 2+2-2, 3+1-1, 4+0, 5/1} {1, 2, 3, 4, 5}];",
        Object::Array(
            vec![
                vec![one, two, three, four, five],
                vec![
                    Object::Integer(1),
                    Object::Integer(2),
                    Object::Integer(3),
                    Object::Integer(4),
                    Object::Integer(5),
                ],
            ]
            ,
        ),
    );
}

#[test]
fn test_built_in() {
    eval("size([{1, 2, 3, 4, 5}]);", Object::Integer(5));
    eval(
        "size([{1, 2, 3, 4, 5} {10, 12, 123, 155, 166} {100, 99, 98, 97, 96}]);",
        Object::Integer(15),
    );
    eval(
        "max([{1, 2, 3, 4, 5} {10, 12, 123, 155, 166} {100, 99, 98, 97, 96}]);",
        Object::Integer(166),
    );
    eval(
        "min([{1, 2, 3, 4, 5} {10, 12, 123, 155, 166} {100, 99, 98, 97, 96}]);",
        Object::Integer(1),
    );
    eval(
        "sum([{1, 2, 3, 4, 5} {3, 4, 1, 2, 0} {10, 10, 10, 10, 10} ]);",
        Object::Integer(75),
    );
    eval(
        "constant_product([{1, 2}], 10);",
        Object::Array(vec![vec![Object::Integer(10), Object::Integer(20)]]),
    );
    eval(
        "transpose_matrix([{1, 2, 3} {4, 5, 6}]);",
        Object::Array(
            vec![
                vec![Object::Integer(1), Object::Integer(4)],
                vec![Object::Integer(2), Object::Integer(5)],
                vec![Object::Integer(3), Object::Integer(6)],
            ]
            ,
        ),
    );
    eval(
        "add_matrix([{1, 2, 3, 4, 5} {1, 2, 3, 4, 5}], [{10, 10, 10, 10, 10} { 10, 10, 10, 10, 10 }]);",
        Object::Array(
            vec![
                vec![Object::Integer(11), Object::Integer(12), Object::Integer(13), Object::Integer(14), Object::Integer(15)],
                vec![Object::Integer(11), Object::Integer(12), Object::Integer(13), Object::Integer(14), Object::Integer(15)],
            ],
        )
    );
    eval(
        "diff_matrix([{1, 2, 3, 4, 5} {1, 2, 3, 4, 5}], [{10, 10, 10, 10, 10} { 10, 10, 10, 10, 10 }]);",
        Object::Array(
            vec![
                vec![Object::Integer(-9), Object::Integer(-8), Object::Integer(-7), Object::Integer(-6), Object::Integer(-5)],
                vec![Object::Integer(-9), Object::Integer(-8), Object::Integer(-7), Object::Integer(-6), Object::Integer(-5)],
            ],
        )
    );
    eval(
        "get_row(1, [{1, 2, 3, 4, 5} {1, 2, 3, 4, 5}])",
        Object::Array(
            vec![vec![
                Object::Integer(1),
                Object::Integer(2),
                Object::Integer(3),
                Object::Integer(4),
                Object::Integer(5),
            ]]
            ,
        ),
    );
    eval(
        "get_col(2, [{1, 2, 3, 4, 5} {1, 2, 3, 4, 5}])",
        Object::Array(vec![vec![Object::Integer(2), Object::Integer(2)]]),
    );
}

#[test]
fn test_dot_product() {
    eval(
        "dot_product([{2, 4}], [{1, 2} {3, 4}]);",
        Object::Array(vec![vec![Object::Integer(14), Object::Integer(20)]]),
    );
}

#[test]
fn test_constant_division() {
    eval(
        "constant_division([{10, 20} {30, 40}], 10);",
        Object::Array(
            vec![
                vec![Object::Integer(1), Object::Integer(2)],
                vec![Object::Integer(3), Object::Integer(4)],
            ]
            ,
        ),
    );
}

#[test]
fn test_let_and_assignment() {
    eval("let x = 5; let y = 6;", Object::Integer(6));
    eval("let x;", Object::Integer(0));
    eval("let a = [{1, 2} {3, 4}]; a[0][1];", Object::Integer(2));
    eval("let a = [{1, 2} {3, 4}]; a[1];", Object::Integer(2));
    // after an expression statement only a `let` continues cleanly, so the
    // readback goes through a binding
    eval(
        "let a = [{1, 2} {3, 4}]; a[1][0] = 9; let b = a[1][0];",
        Object::Integer(9),
    );
}

#[test]
fn test_assignment_binds_loosest() {
    // assignment binds looser than every other operator: x = 2 + 3 groups
    // as x = (2 + 3), so x holds 5 and print hands that value back
    eval("let x = 1; x = 2 + 3; let y = print(x);", Object::Integer(5));
}

#[test]
fn test_comparisons() {
    eval("1 < 2;", Object::Boolean(true));
    eval("2 <= 1;", Object::Boolean(false));
    eval("3 > 2;", Object::Boolean(true));
    eval("3 >= 4;", Object::Boolean(false));
    eval("5 == 5;", Object::Boolean(true));
    eval("5 != 5;", Object::Boolean(false));
}
