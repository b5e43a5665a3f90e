use jwscript::{
    parse, run, BudgetExceeded, Callable, Decimal, Diagnostic, Expr, FunctionDef, Host,
    Interpreter, NativeFn, OutputRecord, SpawnEvent, Statement, SyntaxError, Value, Variable,
    DEFAULT_BUDGET, MAX_DEPTH,
};

fn name(s: &str) -> String {
    s.to_string()
}

fn print(s: &str) -> OutputRecord {
    OutputRecord::Print(name(s))
}

fn returned(s: &str) -> OutputRecord {
    OutputRecord::Returned(name(s))
}

fn records_of(source: &str) -> Vec<OutputRecord> {
    let mut host = Host::new();
    let r = run(name(source), &mut host);
    assert_eq!(r, Ok(()));
    host.records
}

fn lit(n: i64) -> Expr {
    Expr::Literal(Value::Int(n))
}

fn op(l: Expr, o: &str, r: Expr) -> Expr {
    Expr::BinaryOp(Box::new(l), name(o), Box::new(r))
}

#[test]
fn sum_and_comparison_of_integers() {
    let interp = Interpreter::new();
    assert_eq!(interp.eval_expr(&op(lit(2), "+", lit(3))), Some(Value::Int(5)));
    assert_eq!(interp.eval_expr(&op(lit(2), "<", lit(3))), Some(Value::Bool(true)));
    assert_eq!(interp.eval_expr(&op(lit(3), "<", lit(3))), Some(Value::Bool(false)));
    assert_eq!(
        interp.eval_expr(&op(op(lit(-7), "+", lit(9)), "<", lit(3))),
        Some(Value::Bool(true))
    );
    assert_eq!(
        interp.eval_expr(&op(op(lit(1), "+", lit(2)), "<", lit(3))),
        Some(Value::Bool(false))
    );
    assert_eq!(
        interp.eval_expr(&op(lit(i64::MIN), "+", lit(i64::MAX))),
        Some(Value::Int(-1))
    );
}

#[test]
fn sum_that_does_not_fit_has_no_value() {
    let interp = Interpreter::new();
    assert_eq!(interp.eval_expr(&op(lit(i64::MAX), "+", lit(1))), None);
    assert_eq!(interp.eval_expr(&op(lit(i64::MIN), "+", lit(-1))), None);
    assert_eq!(interp.eval_expr(&op(lit(i64::MAX), "+", lit(0))), Some(Value::Int(i64::MAX)));
}

#[test]
fn no_other_operation_has_a_value() {
    let interp = Interpreter::new();
    let s = || Expr::Literal(Value::Str(name("a")));
    let b = || Expr::Literal(Value::Bool(true));
    let f = || Expr::Literal(Value::Float(Decimal { whole: name("1"), frac: name("5") }));
    let n = || Expr::Literal(Value::Native(NativeFn::SpawnBall));
    assert_eq!(interp.eval_expr(&op(s(), "+", s())), None);
    assert_eq!(interp.eval_expr(&op(lit(1), "+", s())), None);
    assert_eq!(interp.eval_expr(&op(b(), "<", b())), None);
    assert_eq!(interp.eval_expr(&op(lit(1), "<", b())), None);
    assert_eq!(interp.eval_expr(&op(f(), "+", f())), None);
    assert_eq!(interp.eval_expr(&op(f(), "<", lit(2))), None);
    assert_eq!(interp.eval_expr(&op(n(), "+", lit(2))), None);
    assert_eq!(interp.eval_expr(&op(lit(1), "-", lit(2))), None);
    assert_eq!(interp.eval_expr(&op(lit(1), "", lit(2))), None);
    assert_eq!(interp.eval_expr(&op(lit(1), "++", lit(2))), None);
    assert_eq!(interp.eval_expr(&op(lit(1), "<=", lit(2))), None);
}

#[test]
fn operand_without_a_value_leaves_none() {
    let interp = Interpreter::new();
    let missing = || Expr::Variable(name("missing"));
    assert_eq!(interp.eval_expr(&missing()), None);
    assert_eq!(interp.eval_expr(&op(missing(), "+", lit(1))), None);
    assert_eq!(interp.eval_expr(&op(lit(1), "+", missing())), None);
}

#[test]
fn sum_then_less_in_a_program() {
    assert_eq!(records_of("r = 1 + 2 < 4; print(r);"), vec![print("true")]);
    assert_eq!(records_of("r = (1 + 2) < 3; print(r);"), vec![print("false")]);
}

#[test]
fn for_loop_over_an_empty_range_runs_nothing() {
    assert_eq!(records_of("var n:int = 1; for i in 0..0 { print(n); }"), vec![]);
    assert_eq!(records_of("var n:int = 1; for i in 3..3 { print(n); }"), vec![]);
    assert_eq!(records_of("var n:int = 1; for i in 5..2 { print(n); }"), vec![]);
}

#[test]
fn for_loop_prints_each_counter() {
    assert_eq!(
        records_of("for i in 0..3 { print(i); }"),
        vec![print("0"), print("1"), print("2")]
    );
}

#[test]
fn declaration_in_a_for_body_is_gone_behind_the_loop() {
    assert_eq!(
        records_of("for i in 0..2 { var y:int = 7; print(y); } print(y);"),
        vec![print("7"), print("7"), OutputRecord::Diagnostic(Diagnostic::PrintFailed)]
    );
    assert_eq!(
        records_of("for i in 0..2 { } print(i);"),
        vec![OutputRecord::Diagnostic(Diagnostic::PrintFailed)]
    );
}

#[test]
fn declaration_in_a_while_body_outlives_the_loop() {
    assert_eq!(
        records_of(
            "var go:bool = true; while (go) { var y:int = 7; go = false; } print(y); print(go);"
        ),
        vec![print("7"), print("false")]
    );
}

#[test]
fn while_body_keeps_its_last_value() {
    assert_eq!(
        records_of("var i:int = 0; while (i < 3) { var last:int = 0; last = i; i = i + 1; } print(last); print(i);"),
        vec![print("2"), print("3")]
    );
}

#[test]
fn assignment_in_a_for_body_shadows() {
    // the assignment writes the scope of the iteration, which is closed behind it
    assert_eq!(
        records_of("var x:int = 5; for i in 0..3 { x = x + i; } print(x);"),
        vec![print("5")]
    );
    assert_eq!(
        records_of("var x:int = 5; for i in 0..3 { x = x + i; print(x); }"),
        vec![print("5"), print("6"), print("7")]
    );
}

#[test]
fn assignment_in_a_while_body_accumulates() {
    assert_eq!(
        records_of("var x:int = 5; var i:int = 0; while (i < 3) { x = x + i; i = i + 1; } print(x);"),
        vec![print("8")]
    );
}

#[test]
fn assignment_binds_a_new_name() {
    assert_eq!(records_of("fresh = 4; print(fresh);"), vec![print("4")]);
}

#[test]
fn assignment_without_a_value_is_reported() {
    assert_eq!(
        records_of("var x:int = 1; x = nope; print(x);"),
        vec![OutputRecord::Diagnostic(Diagnostic::AssignmentFailed), print("1")]
    );
    assert_eq!(
        records_of("var s:string = \"a\"; x = s + 1;"),
        vec![OutputRecord::Diagnostic(Diagnostic::AssignmentFailed)]
    );
    assert_eq!(
        records_of("var m:int = 9223372036854775807; x = m + 1;"),
        vec![OutputRecord::Diagnostic(Diagnostic::AssignmentFailed)]
    );
}

#[test]
fn print_without_a_value_is_reported() {
    assert_eq!(
        records_of("print(nope); var x:int = 1; print(x);"),
        vec![OutputRecord::Diagnostic(Diagnostic::PrintFailed), print("1")]
    );
}

#[test]
fn values_are_printed_in_their_text_form() {
    assert_eq!(records_of("var n:int = 42; print(n);"), vec![print("42")]);
    assert_eq!(records_of("var b:bool = true; print(b);"), vec![print("true")]);
    assert_eq!(records_of("var b:bool = false; print(b);"), vec![print("false")]);
    assert_eq!(records_of("var s:string = \"a b\"; print(s);"), vec![print("a b")]);
    assert_eq!(records_of("print(spawn_ball);"), vec![print("[native function]")]);
}

#[test]
fn decimal_numbers_are_printed_without_idle_zeros() {
    assert_eq!(records_of("var f:float = 3.0; print(f);"), vec![print("3")]);
    assert_eq!(records_of("var f:float = 2.50; print(f);"), vec![print("2.5")]);
    assert_eq!(records_of("var f:float = 007.250; print(f);"), vec![print("7.25")]);
    assert_eq!(records_of("var f:float = 0.5; print(f);"), vec![print("0.5")]);
    assert_eq!(records_of("var f:float = 000.000; print(f);"), vec![print("0")]);
    assert_eq!(records_of("var f:float = 10.01; print(f);"), vec![print("10.01")]);
}

#[test]
fn while_loop_stops_on_anything_but_true() {
    assert_eq!(records_of("var n:int = 1; while (n) { print(n); }"), vec![]);
    assert_eq!(records_of("while (nope) { print(nope); }"), vec![]);
    assert_eq!(records_of("while (false) { print(nope); }"), vec![]);
    assert_eq!(records_of("var s:string = \"true\"; while (s) { print(s); }"), vec![]);
}

#[test]
fn unknown_function_is_reported() {
    let mut host = Host::new();
    let r = run(name("nothing(1); var x:int = 1; print(x);"), &mut host);
    assert_eq!(r, Ok(()));
    assert_eq!(
        host.records,
        vec![
            OutputRecord::Diagnostic(Diagnostic::FunctionNotFound(name("nothing"))),
            print("1"),
        ]
    );
    assert_eq!(host.spawns, vec![]);
}

#[test]
fn print_of_a_number_calls_an_unknown_function() {
    assert_eq!(
        records_of("print(1);"),
        vec![OutputRecord::Diagnostic(Diagnostic::FunctionNotFound(name("print")))]
    );
}

#[test]
fn variable_is_no_function() {
    assert_eq!(
        records_of("var f:int = 1; f();"),
        vec![OutputRecord::Diagnostic(Diagnostic::FunctionNotFound(name("f")))]
    );
}

#[test]
fn argument_without_a_value_stops_the_call() {
    assert_eq!(
        records_of("fn f(a) { print(a); } f(nope);"),
        vec![OutputRecord::Diagnostic(Diagnostic::ArgumentFailed)]
    );
    // the arguments are looked at before the name
    assert_eq!(
        records_of("nothing(nope);"),
        vec![OutputRecord::Diagnostic(Diagnostic::ArgumentFailed)]
    );
}

#[test]
fn host_function_is_called_by_name() {
    let mut host = Host::new();
    let r = run(name("spawn_ball(); spawn_ball(1, 2);"), &mut host);
    assert_eq!(r, Ok(()));
    assert_eq!(host.records, vec![]);
    assert_eq!(host.spawns, vec![SpawnEvent {}, SpawnEvent {}]);
}

#[test]
fn host_function_shadows_user_function() {
    let mut host = Host::new();
    let r = run(
        name("fn spawn_ball() { var z:int = 1; print(z); return z; } spawn_ball();"),
        &mut host,
    );
    assert_eq!(r, Ok(()));
    assert_eq!(host.records, vec![]);
    assert_eq!(host.spawns, vec![SpawnEvent {}]);
}

#[test]
fn rebound_name_gives_way_to_the_user_function() {
    // once the name is bound to something else, the call finds the user function
    let mut host = Host::new();
    let r = run(
        name("fn spawn_ball() { var z:int = 1; print(z); } var spawn_ball:int = 0; spawn_ball();"),
        &mut host,
    );
    assert_eq!(r, Ok(()));
    assert_eq!(host.records, vec![print("1")]);
    assert_eq!(host.spawns, vec![]);
}

#[test]
fn parameters_are_bound_by_position() {
    assert_eq!(
        records_of("fn show(a, b) { print(a); print(b); } show(1, 2);"),
        vec![print("1"), print("2")]
    );
}

#[test]
fn extra_arguments_are_ignored() {
    assert_eq!(
        records_of("fn show(a, b) { print(a); print(b); } show(1, 2, 3);"),
        vec![print("1"), print("2")]
    );
}

#[test]
fn missing_arguments_leave_parameters_unbound() {
    assert_eq!(
        records_of("fn show(a, b) { print(a); print(b); } show(1);"),
        vec![print("1"), OutputRecord::Diagnostic(Diagnostic::PrintFailed)]
    );
}

#[test]
fn parameters_are_gone_behind_the_call() {
    assert_eq!(
        records_of("fn f(a) { var local:int = 2; } f(1); print(a); print(local);"),
        vec![
            OutputRecord::Diagnostic(Diagnostic::PrintFailed),
            OutputRecord::Diagnostic(Diagnostic::PrintFailed),
        ]
    );
}

#[test]
fn function_sees_the_global_scope_at_call_time() {
    assert_eq!(
        records_of("fn f() { print(g); } var g:int = 3; f(); g = 4; f();"),
        vec![print("3"), print("4")]
    );
}

#[test]
fn function_sees_the_scopes_of_its_caller() {
    assert_eq!(
        records_of("fn f() { print(i); } for i in 0..2 { f(); }"),
        vec![print("0"), print("1")]
    );
}

#[test]
fn redeclaration_replaces_a_function() {
    assert_eq!(
        records_of("fn f() { var a:int = 1; print(a); } fn f() { var a:int = 2; print(a); } f();"),
        vec![print("2")]
    );
}

#[test]
fn function_declared_in_a_body_is_global() {
    assert_eq!(
        records_of("for i in 0..1 { fn f() { var a:int = 1; print(a); } } f();"),
        vec![print("1")]
    );
}

#[test]
fn value_returned_by_a_call_statement_travels_up() {
    assert_eq!(
        records_of("fn add(a, b) { return a + b; } add(2, 3);"),
        vec![returned("5")]
    );
    // inside a body the call statement returns from the body
    assert_eq!(
        records_of("fn one() { return 1; } fn f() { one(); var x:int = 9; print(x); } f();"),
        vec![returned("1")]
    );
}

#[test]
fn return_stops_the_body() {
    assert_eq!(
        records_of("fn f() { var a:int = 1; print(a); return a; print(a); } f();"),
        vec![print("1"), returned("1")]
    );
}

#[test]
fn return_leaves_nested_loops() {
    assert_eq!(
        records_of(
            "fn f() { for i in 4..10 { print(i); while (true) { for j in 0..5 { return i + j; } } } } f();"
        ),
        vec![print("4"), returned("4")]
    );
}

#[test]
fn function_without_return_gives_nothing() {
    assert_eq!(records_of("fn f() { var a:int = 1; } f();"), vec![]);
}

#[test]
fn return_without_a_value_is_silent() {
    assert_eq!(
        records_of("fn f() { return nope; var a:int = 1; print(a); } f();"),
        vec![print("1")]
    );
    assert_eq!(records_of("return nope;"), vec![]);
}

#[test]
fn return_at_top_level_is_emitted_and_the_program_goes_on() {
    assert_eq!(
        records_of("var x:int = 7; return x; print(x); return x + 1;"),
        vec![returned("7"), print("7"), returned("8")]
    );
}

#[test]
fn return_in_a_top_level_loop_ends_the_loop() {
    assert_eq!(
        records_of("for i in 0..5 { print(i); return i; } var x:int = 1; print(x);"),
        vec![print("0"), returned("0"), print("1")]
    );
}

#[test]
fn syntax_error_runs_nothing() {
    let mut host = Host::new();
    let r = run(name("var x:int = 1; print(x); print(add(2,3));"), &mut host);
    assert_eq!(r, Err(Diagnostic::Syntax(SyntaxError { position: 34 })));
    assert_eq!(
        host.records,
        vec![OutputRecord::Diagnostic(Diagnostic::Syntax(SyntaxError { position: 34 }))]
    );
    assert_eq!(host.spawns, vec![]);
}

#[test]
fn run_appends_to_what_the_host_has() {
    let mut host = Host::new();
    host.emit(print("before"));
    let r = run(name("var x:int = 1; print(x);"), &mut host);
    assert_eq!(r, Ok(()));
    assert_eq!(host.records, vec![print("before"), print("1")]);
}

#[test]
fn each_run_starts_afresh() {
    let mut host = Host::new();
    assert_eq!(run(name("var x:int = 1; fn f() { print(x); }"), &mut host), Ok(()));
    assert_eq!(run(name("print(x); f();"), &mut host), Ok(()));
    assert_eq!(
        host.records,
        vec![
            OutputRecord::Diagnostic(Diagnostic::PrintFailed),
            OutputRecord::Diagnostic(Diagnostic::FunctionNotFound(name("f"))),
        ]
    );
}

#[test]
fn evaluator_keeps_its_state_between_its_runs() {
    let mut host = Host::new();
    let mut interp = Interpreter::new();
    assert_eq!(interp.run("var x:int = 1; fn f() { print(x); }", &mut host), Ok(()));
    assert_eq!(interp.run("print(x); f();", &mut host), Ok(()));
    assert_eq!(host.records, vec![print("1"), print("1")]);
}

#[test]
fn new_evaluator_knows_the_host_functions() {
    let interp = Interpreter::new();
    assert_eq!(interp.scopes.len(), 1);
    assert_eq!(interp.budget, DEFAULT_BUDGET);
    assert_eq!(interp.get_var("spawn_ball"), Some(Value::Native(NativeFn::SpawnBall)));
    assert_eq!(interp.get_var("other"), None);
    assert!(interp.functions.entries.is_empty());
}

#[test]
fn lookup_goes_from_the_innermost_scope_outwards() {
    let mut interp = Interpreter::new();
    interp.set_var(name("x"), Value::Int(1));
    interp.set_var(name("y"), Value::Int(10));
    interp.push_scope();
    assert_eq!(interp.get_var("x"), Some(Value::Int(1)));
    interp.set_var(name("x"), Value::Int(2));
    assert_eq!(interp.get_var("x"), Some(Value::Int(2)));
    assert_eq!(interp.get_var("y"), Some(Value::Int(10)));
    interp.set_var(name("x"), Value::Int(3));
    assert_eq!(interp.get_var("x"), Some(Value::Int(3)));
    interp.pop_scope();
    assert_eq!(interp.get_var("x"), Some(Value::Int(1)));
    assert_eq!(interp.scopes.len(), 1);
}

#[test]
fn without_a_scope_nothing_is_bound() {
    let mut interp = Interpreter::new();
    interp.pop_scope();
    interp.pop_scope();
    assert_eq!(interp.scopes.len(), 0);
    interp.set_var(name("x"), Value::Int(1));
    assert_eq!(interp.get_var("x"), None);
}

#[test]
fn call_resolves_to_host_function_then_user_function() {
    let mut interp = Interpreter::new();
    let mut host = Host::new();
    assert!(interp.resolve(&name("f")).is_none());
    let stmts = parse("fn f(a) { return a; } fn spawn_ball() { }").unwrap();
    assert_eq!(interp.eval_program(&stmts, &mut host), Ok(()));
    let f = interp.resolve(&name("f")).unwrap();
    assert_eq!(f.name, "f");
    match f.callable {
        Callable::User(def) => {
            assert_eq!(
                def,
                FunctionDef {
                    parameters: vec![name("a")],
                    body: vec![Statement::Return(Expr::Variable(name("a")))],
                }
            );
        }
        Callable::Native(_) => panic!("a user function was declared"),
    }
    let s = interp.resolve(&name("spawn_ball")).unwrap();
    assert!(matches!(s.callable, Callable::Native(NativeFn::SpawnBall)));
}

#[test]
fn statement_result_tells_how_it_ended() {
    let mut interp = Interpreter::new();
    let mut host = Host::new();
    let decl = Statement::VarDecl(Variable {
        name: name("x"),
        type_annotation: name("int"),
        value: Value::Int(3),
    });
    assert_eq!(interp.eval_statement(&decl, &mut host), Ok(None));
    let ret = Statement::Return(Expr::Variable(name("x")));
    assert_eq!(interp.eval_statement(&ret, &mut host), Ok(Some(Value::Int(3))));
    assert_eq!(interp.budget, DEFAULT_BUDGET - 2);
    interp.budget = 0;
    assert_eq!(interp.eval_statement(&ret, &mut host), Err(BudgetExceeded {}));
    assert_eq!(host.records, vec![]);
}

#[test]
fn user_function_is_called_with_values() {
    let mut interp = Interpreter::new();
    let mut host = Host::new();
    let def = FunctionDef {
        parameters: vec![name("a"), name("b")],
        body: parse("print(b); return a + b;").unwrap(),
    };
    let r = interp.eval_function_call(def, vec![Value::Int(2), Value::Int(3)], &mut host);
    assert_eq!(r, Ok(Some(Value::Int(5))));
    assert_eq!(host.records, vec![print("3")]);
    assert_eq!(interp.scopes.len(), 1);
    assert_eq!(interp.get_var("a"), None);
}

#[test]
fn arguments_are_evaluated_all_or_none() {
    let mut interp = Interpreter::new();
    interp.set_var(name("x"), Value::Int(4));
    let good = vec![lit(1), Expr::Variable(name("x")), op(lit(1), "<", lit(2))];
    assert_eq!(
        interp.eval_arguments(&good),
        Some(vec![Value::Int(1), Value::Int(4), Value::Bool(true)])
    );
    let bad = vec![lit(1), Expr::Variable(name("y")), lit(3)];
    assert_eq!(interp.eval_arguments(&bad), None);
    assert_eq!(interp.eval_arguments(&vec![]), Some(vec![]));
}

#[test]
fn body_runs_until_a_statement_returns() {
    let mut interp = Interpreter::new();
    let mut host = Host::new();
    let body = parse("var a:int = 1; print(a); return a + 1; print(a);").unwrap();
    assert_eq!(interp.eval_block(&body, &mut host), Ok(Some(Value::Int(2))));
    assert_eq!(host.records, vec![print("1")]);
    assert_eq!(interp.budget, DEFAULT_BUDGET - 3);
    assert_eq!(interp.eval_block(&vec![], &mut host), Ok(None));
    assert_eq!(interp.budget, DEFAULT_BUDGET - 3);
}

#[test]
fn each_statement_and_each_iteration_costs_a_step() {
    let mut host = Host::new();
    let mut interp = Interpreter::with_budget(100);
    assert_eq!(interp.run("var x:int = 1;", &mut host), Ok(()));
    assert_eq!(interp.budget, 99);
    // the loop statement, three iterations, three statements
    assert_eq!(interp.run("for i in 0..3 { x = i; }", &mut host), Ok(()));
    assert_eq!(interp.budget, 92);
    // the loop statement, two iterations, four statements
    assert_eq!(
        interp.run("var i:int = 0; while (i < 2) { x = i; i = i + 1; }", &mut host),
        Ok(())
    );
    assert_eq!(interp.budget, 84);
    // the declaration, the call, two statements of the body
    assert_eq!(interp.run("fn f(a) { x = a; return a; } f(1);", &mut host), Ok(()));
    assert_eq!(interp.budget, 80);
    // a call of a host function is one step
    assert_eq!(interp.run("spawn_ball();", &mut host), Ok(()));
    assert_eq!(interp.budget, 79);
}

#[test]
fn budget_that_just_suffices() {
    let mut host = Host::new();
    let mut interp = Interpreter::with_budget(4);
    assert_eq!(interp.run("for i in 0..3 { }", &mut host), Ok(()));
    assert_eq!(interp.budget, 0);
    assert_eq!(host.records, vec![]);
}

#[test]
fn endless_loop_uses_up_the_budget() {
    let mut host = Host::new();
    let mut interp = Interpreter::with_budget(50);
    let r = interp.run("var n:int = 0; while (true) { n = n + 1; } print(n);", &mut host);
    assert_eq!(r, Err(Diagnostic::BudgetExceeded));
    assert_eq!(interp.budget, 0);
    assert_eq!(host.records, vec![OutputRecord::Diagnostic(Diagnostic::BudgetExceeded)]);
    // 50 steps: the declaration, the loop statement, and 24 iterations of two steps each
    assert_eq!(interp.get_var("n"), Some(Value::Int(24)));
}

#[test]
fn endless_recursion_uses_up_the_budget() {
    let mut host = Host::new();
    let mut interp = Interpreter::with_budget(200);
    let r = interp.run("fn f() { f(); } f();", &mut host);
    assert_eq!(r, Err(Diagnostic::BudgetExceeded));
    assert_eq!(interp.budget, 0);
    assert_eq!(interp.scopes.len(), 1);
    assert_eq!(host.records, vec![OutputRecord::Diagnostic(Diagnostic::BudgetExceeded)]);
}

#[test]
fn endless_recursion_ends_at_the_deepest_scope() {
    let mut host = Host::new();
    let r = run(name("fn f() { f(); } f();"), &mut host);
    assert_eq!(r, Err(Diagnostic::BudgetExceeded));
    assert_eq!(host.records, vec![OutputRecord::Diagnostic(Diagnostic::BudgetExceeded)]);
}

#[test]
fn calls_nest_as_deep_as_scopes_may() {
    // the global scope and one scope for each of 511 calls
    let deep = "fn up(n) { more = n < 511; while (more) { up(n + 1); more = false; } if_done = n; } up(1); var ok:int = 1; print(ok);";
    assert_eq!(records_of(deep), vec![print("1")]);
    let mut host = Host::new();
    let too_deep = "fn up(n) { more = n < 512; while (more) { up(n + 1); more = false; } } up(1); var ok:int = 1; print(ok);";
    assert_eq!(run(name(too_deep), &mut host), Err(Diagnostic::BudgetExceeded));
    assert_eq!(host.records, vec![OutputRecord::Diagnostic(Diagnostic::BudgetExceeded)]);
}

#[test]
fn for_loop_needs_room_for_its_scope() {
    let mut host = Host::new();
    let mut interp = Interpreter::new();
    while interp.scopes.len() < MAX_DEPTH {
        interp.push_scope();
    }
    let budget = interp.budget;
    assert_eq!(interp.run("for i in 0..0 { }", &mut host), Ok(()));
    assert_eq!(interp.run("var x:int = 1; while (x < 2) { x = x + 1; }", &mut host), Ok(()));
    assert_eq!(interp.budget, budget - 5);
    assert_eq!(interp.run("for i in 0..1 { }", &mut host), Err(Diagnostic::BudgetExceeded));
    assert_eq!(interp.scopes.len(), MAX_DEPTH);
    interp.pop_scope();
    assert_eq!(interp.run("for i in 0..1 { }", &mut host), Ok(()));
    assert_eq!(interp.run("for i in 0..1 { for j in 0..1 { } }", &mut host), Err(Diagnostic::BudgetExceeded));
}

#[test]
fn long_loop_fits_the_default_budget() {
    assert_eq!(
        records_of("var n:int = 0; while (n < 200000) { n = n + 1; } print(n);"),
        vec![print("200000")]
    );
}

#[test]
fn default_budget_stops_an_endless_loop() {
    let mut host = Host::new();
    let mut interp = Interpreter::new();
    let r = interp.run("var n:int = 0; while (true) { n = n + 1; }", &mut host);
    assert_eq!(r, Err(Diagnostic::BudgetExceeded));
    assert_eq!(interp.budget, 0);
    // the declaration, the loop statement, and 499999 iterations of two steps each
    assert_eq!(interp.get_var("n"), Some(Value::Int(499999)));
}

#[test]
fn long_program_is_parsed_and_run() {
    let mut source = String::from("var n:int = 0;\n");
    for _ in 0..2000 {
        source.push_str("n = n + 1; // one more\n");
    }
    source.push_str("print(n);");
    assert_eq!(records_of(&source), vec![print("2000")]);
}

#[test]
fn no_budget_runs_nothing() {
    let mut host = Host::new();
    let mut interp = Interpreter::with_budget(0);
    assert_eq!(interp.run("", &mut host), Ok(()));
    assert_eq!(interp.run("var x:int = 1;", &mut host), Err(Diagnostic::BudgetExceeded));
    assert_eq!(interp.get_var("x"), None);
}

#[test]
fn budget_exceeded_in_a_for_loop_closes_its_scope() {
    let mut host = Host::new();
    let mut interp = Interpreter::with_budget(3);
    let r = interp.run("for i in 0..9 { print(i); }", &mut host);
    assert_eq!(r, Err(Diagnostic::BudgetExceeded));
    assert_eq!(interp.scopes.len(), 1);
    assert_eq!(
        host.records,
        vec![print("0"), OutputRecord::Diagnostic(Diagnostic::BudgetExceeded)]
    );
}
