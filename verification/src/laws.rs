//! What holds of every run: laws of the evaluator's meaning, each proved
//! from the definitions that the contracts use.

use crate::lexeme::{
    stmts_view, ExprView, FunctionDefView, NativeFn, Statement, StmtView, ValueView,
};
use crate::parser::parsed_as;
use crate::resources::{DiagnosticView, HostView, OutputRecordView, SyntaxError};
use crate::semantics::{
    bind, binary, call_function, call_scope, eval_args, eval_expr, exec_block, exec_call, exec_for,
    exec_program, exec_stmt, exec_while, followed_by, lookup, native_effect, native_result,
    op_add, op_less, render, resolve, spend, CallableView, Flow, Machine, Outcome, ScopeView,
    MAX_DEPTH,
};
use crate::text::int_text;
use vstd::prelude::*;

verus! {

/// The stack `after` is as deep as `before`, and all its scopes but the
/// innermost are those of `before`.
pub open spec fn same_outer(before: Seq<ScopeView>, after: Seq<ScopeView>) -> bool {
    &&& after.len() == before.len()
    &&& forall|j: int| 0 <= j < before.len() - 1 ==> after[j] == before[j]
}

/// A literal integer.
pub open spec fn int_lit(n: i64) -> ExprView {
    ExprView::Literal(ValueView::Int(n))
}

/// The expression `l op r`.
pub open spec fn binary_op(l: ExprView, op: Seq<char>, r: ExprView) -> ExprView {
    ExprView::BinaryOp(Box::new(l), op, Box::new(r))
}

/// The sum of two integers, compared with a third, evaluates to what
/// integer arithmetic and ordering give, wherever the sum fits in 64 bits.
pub proof fn lemma_sum_then_less(scopes: Seq<ScopeView>, a: i64, b: i64, c: i64)
    requires
        i64::MIN <= a + b <= i64::MAX,
    ensures
        eval_expr(scopes, binary_op(int_lit(a), op_add(), int_lit(b))) == Some(
            ValueView::Int((a + b) as i64),
        ),
        eval_expr(scopes, binary_op(int_lit(a), op_less(), int_lit(c))) == Some(
            ValueView::Bool(a < c),
        ),
        eval_expr(
            scopes,
            binary_op(binary_op(int_lit(a), op_add(), int_lit(b)), op_less(), int_lit(c)),
        ) == Some(ValueView::Bool(a + b < c)),
{
    assert(op_add() != op_less()) by {
        assert(op_add()[0] == '+');
        assert(op_less()[0] == '<');
    }
    reveal_with_fuel(eval_expr, 3);
}

/// A binary operation has a result only on two integers, and only for the
/// operators of addition and comparison.
pub proof fn lemma_binary_only_on_integers(l: ValueView, op: Seq<char>, r: ValueView)
    ensures
        binary(l, op, r) is Some ==> l is Int && r is Int && (op == op_add() || op == op_less()),
{
}

/// A `for` loop over a range that is empty executes nothing: the state is
/// left as it was and no step is taken.
pub proof fn lemma_empty_range(
    m: Machine,
    var: Seq<char>,
    start: int,
    end: int,
    body: Seq<StmtView>,
    budget: nat,
)
    requires
        start >= end,
    ensures
        exec_for(m, var, start, end, body, budget) == (Outcome {
            machine: m,
            flow: Flow::Normal,
            used: 0,
        }),
{
}

/// Executing a statement takes no more steps than the budget has, keeps
/// the depth of the scope stack and leaves every scope but the innermost as
/// it was.
pub proof fn lemma_stmt_frame(m: Machine, s: StmtView, budget: nat)
    ensures
        exec_stmt(m, s, budget).used <= budget,
        same_outer(m.scopes, exec_stmt(m, s, budget).machine.scopes),
    decreases budget, 0nat, 0nat,
{
    if budget > 0 {
        let left = (budget - 1) as nat;
        match s {
            StmtView::ForLoop { var_name, start, end, body } => {
                lemma_for_frame(m, var_name, start as int, end as int, body, left);
            },
            StmtView::While { condition, body } => {
                lemma_while_frame(m, condition, body, left);
            },
            StmtView::FunctionCall { name, arguments } => {
                lemma_call_frame(m, name, arguments, left);
            },
            _ => {},
        }
    }
}

/// The same of a body executed from its statement `i` on.
pub proof fn lemma_block_frame(m: Machine, stmts: Seq<StmtView>, i: int, budget: nat)
    ensures
        exec_block(m, stmts, i, budget).used <= budget,
        same_outer(m.scopes, exec_block(m, stmts, i, budget).machine.scopes),
    decreases budget, 1nat, stmts.len() - i,
{
    if 0 <= i < stmts.len() {
        let o = exec_stmt(m, stmts[i], budget);
        lemma_stmt_frame(m, stmts[i], budget);
        if o.flow is Normal {
            lemma_block_frame(o.machine, stmts, i + 1, spend(budget, o.used));
        }
    }
}

/// A `for` loop takes no more steps than the budget has and leaves every
/// scope as it was: what its body declares or assigns is gone when the
/// iteration ends.
pub proof fn lemma_for_frame(
    m: Machine,
    var: Seq<char>,
    i: int,
    end: int,
    body: Seq<StmtView>,
    budget: nat,
)
    ensures
        exec_for(m, var, i, end, body, budget).used <= budget,
        exec_for(m, var, i, end, body, budget).machine.scopes == m.scopes,
    decreases budget, 2nat, end - i,
{
    if i < end && budget > 0 {
        let left = (budget - 1) as nat;
        let m1 = m.push(Map::empty()).bind(var, ValueView::Int(i as i64));
        let inner = exec_block(m1, body, 0, left);
        lemma_block_frame(m1, body, 0, left);
        assert(inner.machine.pop().scopes =~= m.scopes);
        if inner.flow is Normal {
            lemma_for_frame(inner.machine.pop(), var, i + 1, end, body, spend(left, inner.used));
        }
    }
}

/// A `while` loop takes no more steps than the budget has, keeps the depth
/// of the scope stack and leaves every scope but the innermost as it was.
pub proof fn lemma_while_frame(m: Machine, condition: ExprView, body: Seq<StmtView>, budget: nat)
    ensures
        exec_while(m, condition, body, budget).used <= budget,
        same_outer(m.scopes, exec_while(m, condition, body, budget).machine.scopes),
    decreases budget, 2nat, 0nat,
{
    if eval_expr(m.scopes, condition) == Some(ValueView::Bool(true)) && budget > 0 {
        let left = (budget - 1) as nat;
        let inner = exec_block(m, body, 0, left);
        lemma_block_frame(m, body, 0, left);
        if inner.flow is Normal {
            lemma_while_frame(inner.machine, condition, body, spend(left, inner.used));
        }
    }
}

/// A call of a user function takes no more steps than the budget has and
/// leaves every scope of the caller as it was.
pub proof fn lemma_call_function_frame(
    m: Machine,
    def: FunctionDefView,
    args: Seq<ValueView>,
    budget: nat,
)
    ensures
        call_function(m, def, args, budget).used <= budget,
        call_function(m, def, args, budget).machine.scopes == m.scopes,
    decreases budget, 2nat, 0nat,
{
    let m1 = m.push(call_scope(def.parameters, args));
    lemma_block_frame(m1, def.body, 0, budget);
    assert(exec_block(m1, def.body, 0, budget).machine.pop().scopes =~= m.scopes);
}

/// A call statement takes no more steps than the budget has and leaves
/// every scope as it was.
pub proof fn lemma_call_frame(m: Machine, name: Seq<char>, arguments: Seq<ExprView>, budget: nat)
    ensures
        exec_call(m, name, arguments, budget).used <= budget,
        exec_call(m, name, arguments, budget).machine.scopes == m.scopes,
    decreases budget, 3nat, 0nat,
{
    match eval_args(m.scopes, arguments) {
        None => {},
        Some(args) => match resolve(m.scopes, m.functions, name) {
            Some(CallableView::User(def)) => {
                lemma_call_function_frame(m, def, args, budget);
            },
            _ => {},
        },
    }
}

/// A program takes no more steps than the budget has, keeps the depth of
/// the scope stack and leaves every scope but the innermost as it was: a
/// run that starts with a global scope always has one.
pub proof fn lemma_program_frame(m: Machine, stmts: Seq<StmtView>, i: int, budget: nat)
    ensures
        exec_program(m, stmts, i, budget).used <= budget,
        same_outer(m.scopes, exec_program(m, stmts, i, budget).machine.scopes),
    decreases budget, 4nat, stmts.len() - i,
{
    if 0 <= i < stmts.len() {
        let o = exec_stmt(m, stmts[i], budget);
        lemma_stmt_frame(m, stmts[i], budget);
        match o.flow {
            Flow::Normal => {
                lemma_program_frame(o.machine, stmts, i + 1, spend(budget, o.used));
            },
            Flow::Return(v) => {
                lemma_program_frame(
                    o.machine.emit(OutputRecordView::Returned(render(v))),
                    stmts,
                    i + 1,
                    spend(budget, o.used),
                );
            },
            Flow::Exhausted => {},
        }
    }
}

/// A name bound in the innermost scope is found there.
pub proof fn lemma_lookup_bound(scopes: Seq<ScopeView>, name: Seq<char>, v: ValueView)
    requires
        scopes.len() >= 1,
    ensures
        lookup(bind(scopes, name, v), name) == Some(v),
{
}

/// What a `for` loop's body declares is not visible behind the loop: every
/// name stands for what it stood for in front of it.
pub proof fn lemma_for_declaration_is_gone(
    m: Machine,
    var: Seq<char>,
    start: int,
    end: int,
    body: Seq<StmtView>,
    budget: nat,
    name: Seq<char>,
)
    ensures
        lookup(exec_for(m, var, start, end, body, budget).machine.scopes, name) == lookup(
            m.scopes,
            name,
        ),
{
    lemma_for_frame(m, var, start, end, body, budget);
}

/// What a `while` loop's body declares outlives the loop: behind a loop
/// that ran its declaration once, the name is bound to the declared value
/// in the scope that encloses the loop.
pub proof fn lemma_while_declaration_outlives_loop(
    m: Machine,
    condition: ExprView,
    name: Seq<char>,
    type_annotation: Seq<char>,
    value: ValueView,
    budget: nat,
)
    requires
        m.scopes.len() >= 1,
        budget >= 2,
        eval_expr(m.scopes, condition) == Some(ValueView::Bool(true)),
        eval_expr(bind(m.scopes, name, value), condition) != Some(ValueView::Bool(true)),
    ensures
        ({
            let o = exec_while(
                m,
                condition,
                seq![StmtView::VarDecl { name, type_annotation, value }],
                budget,
            );
            &&& o.flow is Normal
            &&& o.machine.scopes == bind(m.scopes, name, value)
            &&& lookup(o.machine.scopes, name) == Some(value)
        }),
{
    let body = seq![StmtView::VarDecl { name, type_annotation, value }];
    let left = (budget - 1) as nat;
    let first = exec_stmt(m, body[0], left);
    assert(first.machine == m.bind(name, value));
    assert(exec_block(first.machine, body, 1, spend(left, first.used)).flow is Normal);
    let inner = exec_block(m, body, 0, left);
    assert(inner.machine == m.bind(name, value));
    assert(inner.used == 1);
    reveal_with_fuel(exec_while, 2);
}

/// A call of a name that stands for nothing executes nothing and returns
/// nothing: it ends normally after one step, and all it leaves behind is
/// one diagnostic.
pub proof fn lemma_unknown_function(
    m: Machine,
    name: Seq<char>,
    arguments: Seq<ExprView>,
    budget: nat,
)
    requires
        budget > 0,
        resolve(m.scopes, m.functions, name) is None,
    ensures
        exec_stmt(m, StmtView::FunctionCall { name, arguments }, budget) == (Outcome {
            machine: m.report(
                if eval_args(m.scopes, arguments) is None {
                    DiagnosticView::ArgumentFailed
                } else {
                    DiagnosticView::FunctionNotFound(name)
                },
            ),
            flow: Flow::Normal,
            used: 1,
        }),
{
}

/// A host function bound to a name is what a call of the name means,
/// whatever user function carries the same name.
pub proof fn lemma_native_shadows_user(
    m: Machine,
    name: Seq<char>,
    f: NativeFn,
    arguments: Seq<ExprView>,
    budget: nat,
)
    requires
        budget > 0,
        lookup(m.scopes, name) == Some(ValueView::Native(f)),
        eval_args(m.scopes, arguments) is Some,
    ensures
        resolve(m.scopes, m.functions, name) == Some(CallableView::Native(f)),
        ({
            let args = eval_args(m.scopes, arguments)->0;
            exec_stmt(m, StmtView::FunctionCall { name, arguments }, budget) == (Outcome {
                machine: native_effect(f, args, m),
                flow: match native_result(f, args) {
                    Some(v) => Flow::Return(v),
                    None => Flow::Normal,
                },
                used: 1,
            })
        }),
{
}

/// A `return` whose expression has a value ends its statement with that
/// value and changes nothing.
pub proof fn lemma_return_statement(m: Machine, e: ExprView, v: ValueView, budget: nat)
    requires
        budget > 0,
        eval_expr(m.scopes, e) == Some(v),
    ensures
        exec_stmt(m, StmtView::Return(e), budget) == (Outcome {
            machine: m,
            flow: Flow::Return(v),
            used: 1,
        }),
{
}

/// A statement that returns ends its body: what follows it is not
/// executed.
pub proof fn lemma_return_stops_block(m: Machine, stmts: Seq<StmtView>, i: int, budget: nat)
    requires
        0 <= i < stmts.len(),
        exec_stmt(m, stmts[i], budget).flow is Return,
    ensures
        exec_block(m, stmts, i, budget) == exec_stmt(m, stmts[i], budget),
{
}

/// A body that returns ends its `for` loop: the iteration's scope is
/// closed, no further iteration runs, and the value travels on.
pub proof fn lemma_return_stops_for(
    m: Machine,
    var: Seq<char>,
    i: int,
    end: int,
    body: Seq<StmtView>,
    budget: nat,
)
    requires
        i < end,
        budget > 0,
        m.scopes.len() < MAX_DEPTH,
        exec_block(
            m.push(Map::empty()).bind(var, ValueView::Int(i as i64)),
            body,
            0,
            (budget - 1) as nat,
        ).flow is Return,
    ensures
        ({
            let inner = exec_block(
                m.push(Map::empty()).bind(var, ValueView::Int(i as i64)),
                body,
                0,
                (budget - 1) as nat,
            );
            exec_for(m, var, i, end, body, budget) == (Outcome {
                machine: inner.machine.pop(),
                flow: inner.flow,
                used: inner.used + 1,
            })
        }),
{
}

/// A body that returns ends its `while` loop: the condition is not looked
/// at again, and the value travels on.
pub proof fn lemma_return_stops_while(
    m: Machine,
    condition: ExprView,
    body: Seq<StmtView>,
    budget: nat,
)
    requires
        budget > 0,
        eval_expr(m.scopes, condition) == Some(ValueView::Bool(true)),
        exec_block(m, body, 0, (budget - 1) as nat).flow is Return,
    ensures
        ({
            let inner = exec_block(m, body, 0, (budget - 1) as nat);
            exec_while(m, condition, body, budget) == (Outcome {
                machine: inner.machine,
                flow: inner.flow,
                used: inner.used + 1,
            })
        }),
{
}

/// What the body of a function returns is the result of the call.
pub proof fn lemma_call_returns_body_value(
    m: Machine,
    def: FunctionDefView,
    args: Seq<ValueView>,
    budget: nat,
)
    requires
        m.scopes.len() < MAX_DEPTH,
    ensures
        call_function(m, def, args, budget).flow == exec_block(
            m.push(call_scope(def.parameters, args)),
            def.body,
            0,
            budget,
        ).flow,
{
}

/// A `return` in a `while` loop in a `for` loop ends both loops at once:
/// the `for` loop returns the value in its first iteration, after four
/// steps, and leaves the scopes as they were.
pub proof fn lemma_return_leaves_nested_loops(
    m: Machine,
    var: Seq<char>,
    i: int,
    end: int,
    condition: ExprView,
    e: ExprView,
    v: ValueView,
    budget: nat,
)
    requires
        i < end,
        budget >= 4,
        m.scopes.len() < MAX_DEPTH,
        ({
            let scopes = m.push(Map::empty()).bind(var, ValueView::Int(i as i64)).scopes;
            &&& eval_expr(scopes, condition) == Some(ValueView::Bool(true))
            &&& eval_expr(scopes, e) == Some(v)
        }),
    ensures
        ({
            let inner = StmtView::While { condition, body: seq![StmtView::Return(e)] };
            let o = exec_for(m, var, i, end, seq![inner], budget);
            &&& o.flow == Flow::Return(v)
            &&& o.used == 4
            &&& o.machine == m
        }),
{
    let m1 = m.push(Map::empty()).bind(var, ValueView::Int(i as i64));
    let ret = seq![StmtView::Return(e)];
    let inner = StmtView::While { condition, body: ret };
    let b1 = (budget - 1) as nat;
    let b2 = (budget - 2) as nat;
    let b3 = (budget - 3) as nat;
    lemma_return_statement(m1, e, v, b3);
    lemma_return_stops_block(m1, ret, 0, b3);
    lemma_return_stops_while(m1, condition, ret, b2);
    assert(exec_stmt(m1, inner, b1) == (Outcome { machine: m1, flow: Flow::Return(v), used: 3 }));
    lemma_return_stops_block(m1, seq![inner], 0, b1);
    lemma_return_stops_for(m, var, i, end, seq![inner], budget);
    assert(m1.pop().scopes =~= m.scopes);
}

/// A value returned outside any function is emitted as a record of its own,
/// and the program goes on with its next statement.
pub proof fn lemma_top_level_return(
    m: Machine,
    stmts: Seq<StmtView>,
    i: int,
    budget: nat,
    v: ValueView,
)
    requires
        0 <= i < stmts.len(),
        exec_stmt(m, stmts[i], budget).flow == Flow::Return(v),
    ensures
        ({
            let o = exec_stmt(m, stmts[i], budget);
            exec_program(m, stmts, i, budget) == followed_by(
                o,
                exec_program(
                    o.machine.emit(OutputRecordView::Returned(render(v))),
                    stmts,
                    i + 1,
                    spend(budget, o.used),
                ),
            )
        }),
{
}

/// Parsing is a function of the source text: two results for the same text
/// are two errors at the same position or two trees of the same shape.
pub proof fn lemma_parse_is_a_function(
    source: Seq<char>,
    first: Result<Vec<Statement>, SyntaxError>,
    second: Result<Vec<Statement>, SyntaxError>,
)
    requires
        parsed_as(source, first),
        parsed_as(source, second),
    ensures
        match (first, second) {
            (Ok(a), Ok(b)) => stmts_view(a@) == stmts_view(b@),
            (Err(a), Err(b)) => a == b,
            _ => false,
        },
{
}

/// The records of the printed counters `from`, `from + 1`, ... , `n` of
/// them.
pub open spec fn counter_records(from: int, n: nat) -> Seq<OutputRecordView> {
    Seq::new(n, |k: int| OutputRecordView::Print(int_text(from + k)))
}

/// A `for` loop that prints its variable emits one record for each number
/// of its range, in order, and none for the end of the range; it takes two
/// steps for each, and changes nothing else.
pub proof fn lemma_for_prints_counters(m: Machine, var: Seq<char>, i: int, end: int, budget: nat)
    requires
        i64::MIN <= i <= end <= i64::MAX,
        budget >= 2 * (end - i),
        m.scopes.len() < MAX_DEPTH,
    ensures
        ({
            let body = seq![StmtView::PrintExpr(ExprView::Variable(var))];
            let o = exec_for(m, var, i, end, body, budget);
            &&& o.flow is Normal
            &&& o.used == 2 * (end - i)
            &&& o.machine == (Machine {
                host: HostView {
                    records: m.host.records + counter_records(i, (end - i) as nat),
                    ..m.host
                },
                ..m
            })
        }),
    decreases end - i,
{
    let body = seq![StmtView::PrintExpr(ExprView::Variable(var))];
    if i < end {
        let left = (budget - 1) as nat;
        let m1 = m.push(Map::empty()).bind(var, ValueView::Int(i as i64));
        assert(lookup(m1.scopes, var) == Some(ValueView::Int(i as i64)));
        let record = OutputRecordView::Print(int_text(i));
        let first = exec_stmt(m1, body[0], left);
        assert(first.machine == m1.emit(record));
        assert(first.used == 1);
        let inner = exec_block(m1, body, 0, left);
        assert(exec_block(first.machine, body, 1, spend(left, first.used)).flow is Normal);
        assert(inner.machine == m1.emit(record));
        assert(inner.used == 1);
        let next = inner.machine.pop();
        assert(next.scopes =~= m.scopes);
        assert(next == m.emit(record));
        lemma_for_prints_counters(next, var, i + 1, end, spend(left, inner.used));
        assert(m.host.records.push(record) + counter_records(i + 1, (end - i - 1) as nat)
            =~= m.host.records + counter_records(i, (end - i) as nat));
    } else {
        assert(m.host.records + counter_records(i, 0) =~= m.host.records);
    }
}

/// The budget is a bound and nothing else: what ends within a budget ends
/// in the same way, in the same state and after the same steps within any
/// larger budget.
pub proof fn lemma_budget_is_only_a_bound(m: Machine, s: StmtView, budget: nat, larger: nat)
    requires
        budget <= larger,
        !(exec_stmt(m, s, budget).flow is Exhausted),
    ensures
        exec_stmt(m, s, larger) == exec_stmt(m, s, budget),
    decreases budget, 0nat, 0nat,
{
    if budget > 0 {
        let left = (budget - 1) as nat;
        let more = (larger - 1) as nat;
        match s {
            StmtView::ForLoop { var_name, start, end, body } => {
                lemma_for_within_larger_budget(
                    m,
                    var_name,
                    start as int,
                    end as int,
                    body,
                    left,
                    more,
                );
            },
            StmtView::While { condition, body } => {
                lemma_while_within_larger_budget(m, condition, body, left, more);
            },
            StmtView::FunctionCall { name, arguments } => {
                lemma_call_within_larger_budget(m, name, arguments, left, more);
            },
            _ => {},
        }
    }
}

/// The same of a body executed from its statement `i` on.
pub proof fn lemma_block_within_larger_budget(
    m: Machine,
    stmts: Seq<StmtView>,
    i: int,
    budget: nat,
    larger: nat,
)
    requires
        budget <= larger,
        !(exec_block(m, stmts, i, budget).flow is Exhausted),
    ensures
        exec_block(m, stmts, i, larger) == exec_block(m, stmts, i, budget),
    decreases budget, 1nat, stmts.len() - i,
{
    if 0 <= i < stmts.len() {
        let o = exec_stmt(m, stmts[i], budget);
        lemma_budget_is_only_a_bound(m, stmts[i], budget, larger);
        if o.flow is Normal {
            lemma_block_within_larger_budget(
                o.machine,
                stmts,
                i + 1,
                spend(budget, o.used),
                spend(larger, o.used),
            );
        }
    }
}

/// The same of the iterations of a `for` loop.
pub proof fn lemma_for_within_larger_budget(
    m: Machine,
    var: Seq<char>,
    i: int,
    end: int,
    body: Seq<StmtView>,
    budget: nat,
    larger: nat,
)
    requires
        budget <= larger,
        !(exec_for(m, var, i, end, body, budget).flow is Exhausted),
    ensures
        exec_for(m, var, i, end, body, larger) == exec_for(m, var, i, end, body, budget),
    decreases budget, 2nat, end - i,
{
    if i < end {
        let left = (budget - 1) as nat;
        let more = (larger - 1) as nat;
        let m1 = m.push(Map::empty()).bind(var, ValueView::Int(i as i64));
        let inner = exec_block(m1, body, 0, left);
        lemma_block_within_larger_budget(m1, body, 0, left, more);
        if inner.flow is Normal {
            lemma_for_within_larger_budget(
                inner.machine.pop(),
                var,
                i + 1,
                end,
                body,
                spend(left, inner.used),
                spend(more, inner.used),
            );
        }
    }
}

/// The same of a `while` loop.
pub proof fn lemma_while_within_larger_budget(
    m: Machine,
    condition: ExprView,
    body: Seq<StmtView>,
    budget: nat,
    larger: nat,
)
    requires
        budget <= larger,
        !(exec_while(m, condition, body, budget).flow is Exhausted),
    ensures
        exec_while(m, condition, body, larger) == exec_while(m, condition, body, budget),
    decreases budget, 2nat, 0nat,
{
    if eval_expr(m.scopes, condition) == Some(ValueView::Bool(true)) {
        let left = (budget - 1) as nat;
        let more = (larger - 1) as nat;
        let inner = exec_block(m, body, 0, left);
        lemma_block_within_larger_budget(m, body, 0, left, more);
        if inner.flow is Normal {
            lemma_while_within_larger_budget(
                inner.machine,
                condition,
                body,
                spend(left, inner.used),
                spend(more, inner.used),
            );
        }
    }
}

/// The same of a call statement.
pub proof fn lemma_call_within_larger_budget(
    m: Machine,
    name: Seq<char>,
    arguments: Seq<ExprView>,
    budget: nat,
    larger: nat,
)
    requires
        budget <= larger,
        !(exec_call(m, name, arguments, budget).flow is Exhausted),
    ensures
        exec_call(m, name, arguments, larger) == exec_call(m, name, arguments, budget),
    decreases budget, 3nat, 0nat,
{
    match eval_args(m.scopes, arguments) {
        None => {},
        Some(args) => match resolve(m.scopes, m.functions, name) {
            Some(CallableView::User(def)) => {
                lemma_block_within_larger_budget(
                    m.push(call_scope(def.parameters, args)),
                    def.body,
                    0,
                    budget,
                    larger,
                );
            },
            _ => {},
        },
    }
}

/// The same of a program.
pub proof fn lemma_program_within_larger_budget(
    m: Machine,
    stmts: Seq<StmtView>,
    i: int,
    budget: nat,
    larger: nat,
)
    requires
        budget <= larger,
        !(exec_program(m, stmts, i, budget).flow is Exhausted),
    ensures
        exec_program(m, stmts, i, larger) == exec_program(m, stmts, i, budget),
    decreases budget, 4nat, stmts.len() - i,
{
    if 0 <= i < stmts.len() {
        let o = exec_stmt(m, stmts[i], budget);
        lemma_budget_is_only_a_bound(m, stmts[i], budget, larger);
        match o.flow {
            Flow::Normal => {
                lemma_program_within_larger_budget(
                    o.machine,
                    stmts,
                    i + 1,
                    spend(budget, o.used),
                    spend(larger, o.used),
                );
            },
            Flow::Return(v) => {
                lemma_program_within_larger_budget(
                    o.machine.emit(OutputRecordView::Returned(render(v))),
                    stmts,
                    i + 1,
                    spend(budget, o.used),
                    spend(larger, o.used),
                );
            },
            Flow::Exhausted => {},
        }
    }
}

/// The host has received in `after` all that it had received in `before`,
/// in the same order, and no fewer spawn requests.
pub open spec fn host_grew(before: HostView, after: HostView) -> bool {
    &&& before.records.is_prefix_of(after.records)
    &&& before.spawns <= after.spawns
}

/// What was sent to the host stays sent: executing a statement takes no
/// record back and changes none, it only adds behind them.
pub proof fn lemma_output_only_grows(m: Machine, s: StmtView, budget: nat)
    ensures
        host_grew(m.host, exec_stmt(m, s, budget).machine.host),
    decreases budget, 0nat, 0nat,
{
    if budget > 0 {
        let left = (budget - 1) as nat;
        match s {
            StmtView::ForLoop { var_name, start, end, body } => {
                lemma_for_output_only_grows(m, var_name, start as int, end as int, body, left);
            },
            StmtView::While { condition, body } => {
                lemma_while_output_only_grows(m, condition, body, left);
            },
            StmtView::FunctionCall { name, arguments } => {
                match eval_args(m.scopes, arguments) {
                    None => {},
                    Some(args) => match resolve(m.scopes, m.functions, name) {
                        Some(CallableView::User(def)) => {
                            if m.scopes.len() < MAX_DEPTH {
                                lemma_block_output_only_grows(
                                    m.push(call_scope(def.parameters, args)),
                                    def.body,
                                    0,
                                    left,
                                );
                            }
                        },
                        _ => {},
                    },
                }
            },
            _ => {},
        }
    }
}

/// The same of a body executed from its statement `i` on.
pub proof fn lemma_block_output_only_grows(m: Machine, stmts: Seq<StmtView>, i: int, budget: nat)
    ensures
        host_grew(m.host, exec_block(m, stmts, i, budget).machine.host),
    decreases budget, 1nat, stmts.len() - i,
{
    if 0 <= i < stmts.len() {
        let o = exec_stmt(m, stmts[i], budget);
        lemma_output_only_grows(m, stmts[i], budget);
        if o.flow is Normal {
            lemma_block_output_only_grows(o.machine, stmts, i + 1, spend(budget, o.used));
        }
    }
}

/// The same of the iterations of a `for` loop.
pub proof fn lemma_for_output_only_grows(
    m: Machine,
    var: Seq<char>,
    i: int,
    end: int,
    body: Seq<StmtView>,
    budget: nat,
)
    ensures
        host_grew(m.host, exec_for(m, var, i, end, body, budget).machine.host),
    decreases budget, 2nat, end - i,
{
    if i < end && budget > 0 && m.scopes.len() < MAX_DEPTH {
        let left = (budget - 1) as nat;
        let m1 = m.push(Map::empty()).bind(var, ValueView::Int(i as i64));
        let inner = exec_block(m1, body, 0, left);
        lemma_block_output_only_grows(m1, body, 0, left);
        if inner.flow is Normal {
            lemma_for_output_only_grows(
                inner.machine.pop(),
                var,
                i + 1,
                end,
                body,
                spend(left, inner.used),
            );
        }
    }
}

/// The same of a `while` loop.
pub proof fn lemma_while_output_only_grows(
    m: Machine,
    condition: ExprView,
    body: Seq<StmtView>,
    budget: nat,
)
    ensures
        host_grew(m.host, exec_while(m, condition, body, budget).machine.host),
    decreases budget, 2nat, 0nat,
{
    if eval_expr(m.scopes, condition) == Some(ValueView::Bool(true)) && budget > 0 {
        let left = (budget - 1) as nat;
        let inner = exec_block(m, body, 0, left);
        lemma_block_output_only_grows(m, body, 0, left);
        if inner.flow is Normal {
            lemma_while_output_only_grows(
                inner.machine,
                condition,
                body,
                spend(left, inner.used),
            );
        }
    }
}

/// The same of a program.
pub proof fn lemma_program_output_only_grows(
    m: Machine,
    stmts: Seq<StmtView>,
    i: int,
    budget: nat,
)
    ensures
        host_grew(m.host, exec_program(m, stmts, i, budget).machine.host),
    decreases budget, 4nat, stmts.len() - i,
{
    if 0 <= i < stmts.len() {
        let o = exec_stmt(m, stmts[i], budget);
        lemma_output_only_grows(m, stmts[i], budget);
        match o.flow {
            Flow::Normal => {
                lemma_program_output_only_grows(o.machine, stmts, i + 1, spend(budget, o.used));
            },
            Flow::Return(v) => {
                lemma_program_output_only_grows(
                    o.machine.emit(OutputRecordView::Returned(render(v))),
                    stmts,
                    i + 1,
                    spend(budget, o.used),
                );
            },
            Flow::Exhausted => {},
        }
    }
}

} // verus!
