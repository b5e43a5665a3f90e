use jwscript::interpreter::apply_binary;
use jwscript::lexeme::{clone_exprs, clone_names, clone_statement, clone_statements};
use jwscript::text::{
    alpha, chars_of, digit, ident_char, render_decimal, render_int, render_nat, space,
};
use jwscript::{
    build_native_fn_table, call_native, native_spawn_ball, parse, Decimal, Diagnostic, Expr,
    FunctionDef, Host, NativeFn, OutputRecord, PrintEvent, SpawnEvent, SyntaxError, Table, Value,
    Variable,
};

fn name(s: &str) -> String {
    s.to_string()
}

#[test]
fn integers_in_decimal() {
    assert_eq!(render_int(0), "0");
    assert_eq!(render_int(7), "7");
    assert_eq!(render_int(10), "10");
    assert_eq!(render_int(-1), "-1");
    assert_eq!(render_int(1234567890), "1234567890");
    assert_eq!(render_int(i64::MAX), "9223372036854775807");
    assert_eq!(render_int(i64::MIN), "-9223372036854775808");
}

#[test]
fn unsigned_numbers_in_decimal() {
    assert_eq!(render_nat(0), "0");
    assert_eq!(render_nat(9), "9");
    assert_eq!(render_nat(100), "100");
    assert_eq!(render_nat(u64::MAX), "18446744073709551615");
}

#[test]
fn decimal_numbers_in_their_shortest_form() {
    assert_eq!(render_decimal("3", "0"), "3");
    assert_eq!(render_decimal("3", "14"), "3.14");
    assert_eq!(render_decimal("003", "1400"), "3.14");
    assert_eq!(render_decimal("0", "001"), "0.001");
    assert_eq!(render_decimal("000", "000"), "0");
    assert_eq!(render_decimal("100", "0"), "100");
    assert_eq!(render_decimal("", ""), "");
    assert_eq!(render_decimal("", "5"), ".5");
}

#[test]
fn characters_by_class() {
    assert!(space(' ') && space('\t') && space('\n') && space('\r'));
    assert!(!space('a') && !space('\u{a0}'));
    assert!(alpha('a') && alpha('z') && alpha('A') && alpha('Z'));
    assert!(!alpha('0') && !alpha('_') && !alpha('\u{e9}'));
    assert!(digit('0') && digit('9') && !digit('a') && !digit('\u{663}'));
    assert!(ident_char('a') && ident_char('5') && ident_char('_') && !ident_char('-'));
}

#[test]
fn strings_to_characters() {
    assert_eq!(chars_of(""), Vec::<char>::new());
    assert_eq!(chars_of("a\u{fc}c"), vec!['a', '\u{fc}', 'c']);
}

#[test]
fn values_in_text() {
    assert_eq!(Value::Int(-12).render(), "-12");
    assert_eq!(Value::Float(Decimal { whole: name("12"), frac: name("50") }).render(), "12.5");
    assert_eq!(Value::Str(name("as it is")).render(), "as it is");
    assert_eq!(Value::Bool(true).render(), "true");
    assert_eq!(Value::Bool(false).render(), "false");
    assert_eq!(Value::Native(NativeFn::SpawnBall).render(), "[native function]");
}

#[test]
fn binary_operation_on_values() {
    let plus = name("+");
    let less = name("<");
    assert_eq!(apply_binary(&Value::Int(2), &plus, &Value::Int(3)), Some(Value::Int(5)));
    assert_eq!(apply_binary(&Value::Int(2), &less, &Value::Int(3)), Some(Value::Bool(true)));
    assert_eq!(apply_binary(&Value::Int(3), &less, &Value::Int(2)), Some(Value::Bool(false)));
    assert_eq!(apply_binary(&Value::Int(i64::MAX), &plus, &Value::Int(1)), None);
    assert_eq!(apply_binary(&Value::Int(2), &name("*"), &Value::Int(3)), None);
    assert_eq!(apply_binary(&Value::Bool(true), &plus, &Value::Int(3)), None);
    assert_eq!(apply_binary(&Value::Int(2), &plus, &Value::Str(name("3"))), None);
}

#[test]
fn table_binds_and_replaces() {
    let mut t: Table<Value> = Table::new();
    assert_eq!(t.get(&name("a")), None);
    t.insert(name("a"), Value::Int(1));
    t.insert(name("b"), Value::Int(2));
    assert_eq!(t.get(&name("a")), Some(&Value::Int(1)));
    assert_eq!(t.get(&name("b")), Some(&Value::Int(2)));
    t.insert(name("a"), Value::Int(3));
    assert_eq!(t.get(&name("a")), Some(&Value::Int(3)));
    assert_eq!(t.get(&name("b")), Some(&Value::Int(2)));
    assert_eq!(t.get(&name("A")), None);
    assert_eq!(t.entries.len(), 2);
}

#[test]
fn table_counts_the_last_entry_of_a_name() {
    let t = Table {
        entries: vec![(name("a"), Value::Int(1)), (name("b"), Value::Int(2)), (name("a"), Value::Int(3))],
    };
    assert_eq!(t.get(&name("a")), Some(&Value::Int(3)));
    let mut t = t;
    t.insert(name("a"), Value::Int(4));
    assert_eq!(t.get(&name("a")), Some(&Value::Int(4)));
    assert_eq!(t.entries.len(), 3);
}

#[test]
fn table_of_host_functions() {
    let t = build_native_fn_table();
    assert_eq!(t.get(&name("spawn_ball")), Some(&NativeFn::SpawnBall));
    assert_eq!(t.get(&name("spawn")), None);
    assert_eq!(t.entries.len(), 1);
}

#[test]
fn registering_a_name_again_overwrites() {
    let mut t = build_native_fn_table();
    t.insert(name("ball"), NativeFn::SpawnBall);
    t.insert(name("spawn_ball"), NativeFn::SpawnBall);
    assert_eq!(t.entries.len(), 2);
    assert_eq!(t.get(&name("ball")), Some(&NativeFn::SpawnBall));
}

#[test]
fn spawn_ball_sends_one_request() {
    let mut host = Host::new();
    assert_eq!(native_spawn_ball(vec![Value::Int(1)], &mut host), None);
    assert_eq!(call_native(NativeFn::SpawnBall, vec![], &mut host), None);
    assert_eq!(host.spawns, vec![SpawnEvent {}, SpawnEvent {}]);
    assert_eq!(host.records, vec![]);
}

#[test]
fn messages_of_diagnostics() {
    assert_eq!(
        Diagnostic::Syntax(SyntaxError { position: 38 }).message(),
        " parse error : position 38"
    );
    assert_eq!(Diagnostic::Syntax(SyntaxError { position: 0 }).message(), " parse error : position 0");
    assert_eq!(Diagnostic::PrintFailed.message(), "error evaluating print statement");
    assert_eq!(
        Diagnostic::ArgumentFailed.message(),
        "Error evaluating argument for function call."
    );
    assert_eq!(Diagnostic::AssignmentFailed.message(), "Error evaluating assignment expression.");
    assert_eq!(Diagnostic::FunctionNotFound(name("go")).message(), "Function 'go' not found!");
    assert_eq!(Diagnostic::BudgetExceeded.message(), "Budget exceeded.");
}

#[test]
fn messages_of_records() {
    assert_eq!(OutputRecord::Print(name("8")).message(), "8");
    assert_eq!(OutputRecord::Returned(name("8")).message(), "Returned : 8");
    assert_eq!(
        OutputRecord::Diagnostic(Diagnostic::PrintFailed).message(),
        "error evaluating print statement"
    );
    assert_eq!(
        OutputRecord::Returned(name("x")).to_event(),
        PrintEvent { message: name("Returned : x") }
    );
}

#[test]
fn events_of_a_host_in_order() {
    let mut host = Host::new();
    assert_eq!(host.events(), vec![]);
    host.emit(OutputRecord::Print(name("1")));
    host.emit(OutputRecord::Diagnostic(Diagnostic::FunctionNotFound(name("f"))));
    host.emit(OutputRecord::Returned(name("2")));
    host.spawn(SpawnEvent {});
    assert_eq!(
        host.events(),
        vec![
            PrintEvent { message: name("1") },
            PrintEvent { message: name("Function 'f' not found!") },
            PrintEvent { message: name("Returned : 2") },
        ]
    );
    assert_eq!(host.spawns.len(), 1);
    assert_eq!(host.events()[0].clone(), PrintEvent { message: name("1") });
}

#[test]
fn copies_are_equal_to_what_they_copy() {
    let stmts = parse(
        "var f:float = 1.5; var s:string = \"x\"; fn g(a, b) { for i in 0..2 { while (a < b) { return a + i; } } } g(1, 2); print(f); q = true;",
    )
    .unwrap();
    assert_eq!(clone_statements(&stmts), stmts);
    for s in &stmts {
        assert_eq!(&clone_statement(s), s);
        assert_eq!(&s.clone(), s);
    }
    let names = vec![name("a"), name("b")];
    assert_eq!(clone_names(&names), names);
    let exprs = vec![
        Expr::Variable(name("a")),
        Expr::BinaryOp(
            Box::new(Expr::Literal(Value::Int(1))),
            name("+"),
            Box::new(Expr::Literal(Value::Bool(false))),
        ),
    ];
    assert_eq!(clone_exprs(&exprs), exprs);
    assert_eq!(exprs[1].clone(), exprs[1]);
    let def = FunctionDef { parameters: names, body: stmts };
    assert_eq!(def.clone(), def);
    let v = Variable { name: name("v"), type_annotation: name("int"), value: Value::Int(1) };
    assert_eq!(v.clone(), v);
    let d = Decimal { whole: name("1"), frac: name("2") };
    assert_eq!(d.clone(), d);
}
