use jwscript::{parse, Decimal, Expr, Statement, SyntaxError, Value, Variable};

fn name(s: &str) -> String {
    s.to_string()
}

fn nam(s: &str) -> Expr {
    Expr::Variable(name(s))
}

fn num(n: i64) -> Expr {
    Expr::Literal(Value::Int(n))
}

fn op(l: Expr, o: &str, r: Expr) -> Expr {
    Expr::BinaryOp(Box::new(l), name(o), Box::new(r))
}

fn decl(n: &str, t: &str, v: Value) -> Statement {
    Statement::VarDecl(Variable { name: name(n), type_annotation: name(t), value: v })
}

fn assign(n: &str, e: Expr) -> Statement {
    Statement::Assignment { name: name(n), expr: e }
}

fn error_at(source: &str) -> usize {
    match parse(source) {
        Err(SyntaxError { position }) => position,
        Ok(stmts) => panic!("parsed as {:?}", stmts),
    }
}

#[test]
fn empty_text_is_the_empty_program() {
    assert_eq!(parse(""), Ok(vec![]));
    assert_eq!(parse(" \t\r\n "), Ok(vec![]));
    assert_eq!(parse("// only a comment"), Ok(vec![]));
    assert_eq!(parse("/* only\na comment */"), Ok(vec![]));
}

#[test]
fn declaration_of_an_integer() {
    assert_eq!(parse("var x:int = 5;"), Ok(vec![decl("x", "int", Value::Int(5))]));
    assert_eq!(parse("var x : int=5 ;"), Ok(vec![decl("x", "int", Value::Int(5))]));
    assert_eq!(parse("varx:int=5;"), Ok(vec![decl("x", "int", Value::Int(5))]));
}

#[test]
fn declaration_of_a_decimal_number() {
    assert_eq!(
        parse("var f:float = 3.50;"),
        Ok(vec![decl(
            "f",
            "float",
            Value::Float(Decimal { whole: name("3"), frac: name("50") })
        )])
    );
}

#[test]
fn decimal_number_is_tried_before_integer() {
    // "3.0" is one number, not the integer 3 with ".0" left over
    assert_eq!(
        parse("var f:float = 3.0;"),
        Ok(vec![decl("f", "float", Value::Float(Decimal { whole: name("3"), frac: name("0") }))])
    );
}

#[test]
fn declaration_of_a_string() {
    assert_eq!(
        parse("var s:string = \"hi there; // no comment\";"),
        Ok(vec![decl("s", "string", Value::Str(name("hi there; // no comment")))])
    );
    assert_eq!(parse("var s:string = \"\";"), Ok(vec![decl("s", "string", Value::Str(name("")))]));
}

#[test]
fn string_has_no_escapes() {
    // the backslash is a character like any other, and the next quote ends the string
    assert_eq!(
        parse("var s:string = \"a\\\";"),
        Ok(vec![decl("s", "string", Value::Str(name("a\\")))])
    );
}

#[test]
fn string_keeps_characters_beyond_ascii() {
    assert_eq!(
        parse("var s:string = \"gr\u{fc}\u{df} \u{1f600}\";"),
        Ok(vec![decl("s", "string", Value::Str(name("gr\u{fc}\u{df} \u{1f600}")))])
    );
}

#[test]
fn declaration_of_a_boolean() {
    assert_eq!(parse("var b:bool = true;"), Ok(vec![decl("b", "bool", Value::Bool(true))]));
    assert_eq!(parse("var b:bool = false;"), Ok(vec![decl("b", "bool", Value::Bool(false))]));
}

#[test]
fn type_annotation_is_not_checked() {
    assert_eq!(parse("var x:bool = 5;"), Ok(vec![decl("x", "bool", Value::Int(5))]));
}

#[test]
fn declaration_takes_no_expression() {
    assert_eq!(error_at("var x:int = y;"), 12);
    assert_eq!(error_at("var x:int = 1 + 2;"), 14);
}

#[test]
fn assignment_of_an_expression() {
    assert_eq!(parse("x = y;"), Ok(vec![assign("x", nam("y"))]));
    assert_eq!(parse("x = true;"), Ok(vec![assign("x", Expr::Literal(Value::Bool(true)))]));
    assert_eq!(parse("x=1+2;"), Ok(vec![assign("x", op(num(1), "+", num(2)))]));
}

#[test]
fn addition_binds_tighter_than_comparison() {
    assert_eq!(
        parse("x = a + b < c + d;"),
        Ok(vec![assign("x", op(op(nam("a"), "+", nam("b")), "<", op(nam("c"), "+", nam("d"))))])
    );
}

#[test]
fn operators_group_to_the_right() {
    assert_eq!(
        parse("x = 1 + 2 + 3;"),
        Ok(vec![assign("x", op(num(1), "+", op(num(2), "+", num(3))))])
    );
    assert_eq!(
        parse("x = 1 < 2 < 3;"),
        Ok(vec![assign("x", op(num(1), "<", op(num(2), "<", num(3))))])
    );
}

#[test]
fn brackets_group_as_written() {
    assert_eq!(
        parse("x = (1 + 2) + 3;"),
        Ok(vec![assign("x", op(op(num(1), "+", num(2)), "+", num(3)))])
    );
    assert_eq!(
        parse("x = ( ( a < b ) ) ;"),
        Ok(vec![assign("x", op(nam("a"), "<", nam("b")))])
    );
}

#[test]
fn sum_compared_with_a_third_number() {
    assert_eq!(
        parse("r = 1 + 2 < 4;"),
        Ok(vec![assign("r", op(op(num(1), "+", num(2)), "<", num(4)))])
    );
}

#[test]
fn other_operators_are_rejected() {
    assert_eq!(error_at("x = 1 - 2;"), 6);
    assert_eq!(error_at("x = 1 * 2;"), 6);
    assert_eq!(error_at("x = 1 / 2;"), 6);
    assert_eq!(error_at("x = -1;"), 4);
    assert_eq!(error_at("x = 1 > 2;"), 6);
}

#[test]
fn expressions_take_no_string_and_no_decimal_number() {
    assert_eq!(error_at("x = \"a\";"), 4);
    assert_eq!(error_at("x = 1.5;"), 5);
}

#[test]
fn print_takes_a_name() {
    assert_eq!(parse("print(x);"), Ok(vec![Statement::PrintExpr(nam("x"))]));
    assert_eq!(parse("print ( x ) ;"), Ok(vec![Statement::PrintExpr(nam("x"))]));
}

#[test]
fn print_of_anything_but_a_name_is_a_call() {
    // what is no print statement is still a call of a function named "print"
    assert_eq!(
        parse("print(1);"),
        Ok(vec![Statement::FunctionCall { name: name("print"), arguments: vec![num(1)] }])
    );
    assert_eq!(
        parse("print(a + b);"),
        Ok(vec![Statement::FunctionCall {
            name: name("print"),
            arguments: vec![op(nam("a"), "+", nam("b"))],
        }])
    );
    assert_eq!(
        parse("print();"),
        Ok(vec![Statement::FunctionCall { name: name("print"), arguments: vec![] }])
    );
}

#[test]
fn print_of_a_call_is_rejected() {
    assert_eq!(
        parse("fn add(a,b){ return a + b; } print(add(2,3));"),
        Err(SyntaxError { position: 38 })
    );
}

#[test]
fn for_loop_over_a_range() {
    assert_eq!(
        parse("for i in 0..3 { print(i); }"),
        Ok(vec![Statement::ForLoop {
            var_name: name("i"),
            start: 0,
            end: 3,
            body: vec![Statement::PrintExpr(nam("i"))],
        }])
    );
    assert_eq!(
        parse("for i in0..3{}"),
        Ok(vec![Statement::ForLoop { var_name: name("i"), start: 0, end: 3, body: vec![] }])
    );
}

#[test]
fn for_loop_takes_numbers_as_bounds() {
    assert_eq!(error_at("for i in a..3 { }"), 9);
    assert_eq!(error_at("for i in 0..b { }"), 12);
    assert_eq!(error_at("for iin 0..3 { }"), 8);
}

#[test]
fn while_loop_with_a_condition() {
    assert_eq!(
        parse("while (i < 3) { i = i + 1; }"),
        Ok(vec![Statement::While {
            condition: op(nam("i"), "<", num(3)),
            body: vec![assign("i", op(nam("i"), "+", num(1)))],
        }])
    );
}

#[test]
fn function_declaration() {
    assert_eq!(
        parse("fn add(a, b) { return a + b; }"),
        Ok(vec![Statement::Function {
            name: name("add"),
            parameters: vec![name("a"), name("b")],
            body: vec![Statement::Return(op(nam("a"), "+", nam("b")))],
        }])
    );
    assert_eq!(
        parse("fn nothing() {}"),
        Ok(vec![Statement::Function { name: name("nothing"), parameters: vec![], body: vec![] }])
    );
}

#[test]
fn call_statement() {
    assert_eq!(
        parse("add(1, x + 2);"),
        Ok(vec![Statement::FunctionCall {
            name: name("add"),
            arguments: vec![num(1), op(nam("x"), "+", num(2))],
        }])
    );
    assert_eq!(
        parse("f ( ) ;"),
        Ok(vec![Statement::FunctionCall { name: name("f"), arguments: vec![] }])
    );
}

#[test]
fn no_blank_in_front_of_a_comma() {
    assert_eq!(error_at("f(1 , 2);"), 4);
    assert_eq!(error_at("fn f(a , b) { }"), 7);
    assert_eq!(
        parse("f(1,\n  2);"),
        Ok(vec![Statement::FunctionCall { name: name("f"), arguments: vec![num(1), num(2)] }])
    );
}

#[test]
fn comma_without_an_argument_is_rejected() {
    assert_eq!(error_at("f(1,);"), 4);
    assert_eq!(error_at("f(,1);"), 2);
}

#[test]
fn return_statement() {
    assert_eq!(parse("return x;"), Ok(vec![Statement::Return(nam("x"))]));
    assert_eq!(parse("return 1 + 2;"), Ok(vec![Statement::Return(op(num(1), "+", num(2)))]));
}

#[test]
fn keywords_are_matched_as_prefixes() {
    assert_eq!(parse("returnx;"), Ok(vec![Statement::Return(nam("x"))]));
    assert_eq!(
        parse("fnord(a){}"),
        Ok(vec![Statement::Function {
            name: name("ord"),
            parameters: vec![name("a")],
            body: vec![],
        }])
    );
    assert_eq!(
        parse("printx(y);"),
        Ok(vec![Statement::FunctionCall { name: name("printx"), arguments: vec![nam("y")] }])
    );
}

#[test]
fn name_that_starts_like_a_boolean_is_cut() {
    // "trueish" is read as "true", and "ish" is left over
    assert_eq!(error_at("x = trueish;"), 8);
}

#[test]
fn forms_are_tried_in_order() {
    // "return x" is a return statement before "returnx" is a name
    assert_eq!(parse("returnx;"), Ok(vec![Statement::Return(nam("x"))]));
    // where the earlier forms fail, a keyword is a name like any other
    assert_eq!(parse("return = 1;"), Ok(vec![assign("return", num(1))]));
    assert_eq!(parse("print = 1;"), Ok(vec![assign("print", num(1))]));
    assert_eq!(parse("var = 1;"), Ok(vec![assign("var", num(1))]));
}

#[test]
fn identifiers_take_letters_digits_and_underscores() {
    assert_eq!(parse("a_1B = z9_;"), Ok(vec![assign("a_1B", nam("z9_"))]));
    assert_eq!(error_at("_a = 1;"), 0);
    assert_eq!(error_at("1a = 1;"), 0);
}

#[test]
fn comments_separate_like_blanks() {
    assert_eq!(
        parse("// first\nvar x:int = 1; /* in\nbetween */ print(x); // last"),
        Ok(vec![decl("x", "int", Value::Int(1)), Statement::PrintExpr(nam("x"))])
    );
    assert_eq!(parse("x/* a */=/* b */1/* c */;"), Ok(vec![assign("x", num(1))]));
    assert_eq!(parse("x = 1; /* * / ** */"), Ok(vec![assign("x", num(1))]));
}

#[test]
fn comment_that_is_not_closed_is_an_error() {
    assert_eq!(error_at("x = 1; /* oops"), 7);
    assert_eq!(error_at("x = 1; /* oops *"), 7);
}

#[test]
fn statements_need_no_separator() {
    assert_eq!(parse("x=1;y=2;"), Ok(vec![assign("x", num(1)), assign("y", num(2))]));
}

#[test]
fn largest_integer_is_accepted() {
    assert_eq!(
        parse("x = 9223372036854775807;"),
        Ok(vec![assign("x", num(9223372036854775807))])
    );
    assert_eq!(parse("x = 0000000000000000000000000007;"), Ok(vec![assign("x", num(7))]));
}

#[test]
fn integer_beyond_64_bits_is_rejected() {
    assert_eq!(error_at("x = 9223372036854775808;"), 4);
    assert_eq!(error_at("x = 99999999999999999999999999;"), 4);
    assert_eq!(error_at("for i in 0..9223372036854775808 { }"), 12);
}

#[test]
fn string_that_is_not_closed_is_an_error_at_the_end() {
    assert_eq!(error_at("var s:string = \"abc"), 19);
}

#[test]
fn decimal_number_needs_digits_behind_the_point() {
    assert_eq!(error_at("var x:int = 5.;"), 14);
}

#[test]
fn error_names_the_farthest_position() {
    assert_eq!(error_at("fn f() { x = ; }"), 13);
    assert_eq!(error_at("x = 1; y = ;"), 11);
    assert_eq!(error_at("x = (1 + 2;"), 10);
    assert_eq!(error_at("while (i < 3) { i = i + 1; "), 27);
    assert_eq!(error_at("}"), 0);
}

#[test]
fn bodies_nest() {
    assert_eq!(
        parse("fn f() { for i in 0..2 { while (i < 1) { return i; } } }"),
        Ok(vec![Statement::Function {
            name: name("f"),
            parameters: vec![],
            body: vec![Statement::ForLoop {
                var_name: name("i"),
                start: 0,
                end: 2,
                body: vec![Statement::While {
                    condition: op(nam("i"), "<", num(1)),
                    body: vec![Statement::Return(nam("i"))],
                }],
            }],
        }])
    );
}

#[test]
fn parsing_twice_gives_the_same_tree() {
    let source = "fn add(a,b){ return a + b; } var x:int = 5; for i in 0..3 { x = x + i; } add(x, 1);";
    assert_eq!(parse(source), parse(source));
    assert!(parse(source).is_ok());
    let broken = "var x:int = ;";
    assert_eq!(parse(broken), parse(broken));
    assert_eq!(parse(broken), Err(SyntaxError { position: 12 }));
}
