//! What a program means: the state of a run and, for each statement, the
//! state and outcome that executing it leads to within a step budget.

use crate::lexeme::{ExprView, FunctionDefView, NativeFn, StmtView, ValueView};
use crate::resources::{DiagnosticView, HostView, OutputRecordView};
use crate::text::{decimal_text, int_text};
use vstd::prelude::*;

verus! {

/// One scope: the values of the names bound in it.
pub type ScopeView = Map<Seq<char>, ValueView>;

/// The state of a run: the stack of scopes (innermost last), the function
/// table, and what was sent to the host so far.
pub struct Machine {
    pub scopes: Seq<ScopeView>,
    pub functions: Map<Seq<char>, FunctionDefView>,
    pub host: HostView,
}

/// How the execution of a statement ended.
pub enum Flow {
    /// It ran to its end; the next statement follows.
    Normal,
    /// A `return` was met; the value travels up to the enclosing call.
    Return(ValueView),
    /// The budget was used up: no step was left, or no further scope could
    /// be opened.
    Exhausted,
}

/// The result of executing something: the state it leaves, how it ended and
/// the steps it took.
pub struct Outcome {
    pub machine: Machine,
    pub flow: Flow,
    pub used: nat,
}

/// What a name called as a function stands for.
pub enum CallableView {
    Native(NativeFn),
    User(FunctionDefView),
}

/// The operator of addition.
pub open spec fn op_add() -> Seq<char> {
    seq!['+']
}

/// The operator of comparison.
pub open spec fn op_less() -> Seq<char> {
    seq!['<']
}

/// The text of a value: numbers in decimal, a string as it is, a boolean by
/// its name, a host function by a fixed token.
pub open spec fn render(v: ValueView) -> Seq<char> {
    match v {
        ValueView::Int(n) => int_text(n as int),
        ValueView::Float(d) => decimal_text(d.whole, d.frac),
        ValueView::Str(s) => s,
        ValueView::Bool(b) => if b {
            "true"@
        } else {
            "false"@
        },
        ValueView::Native(_) => "[native function]"@,
    }
}

/// The value bound to `name` in the innermost scope that binds it.
pub open spec fn lookup(scopes: Seq<ScopeView>, name: Seq<char>) -> Option<ValueView>
    decreases scopes.len(),
{
    if scopes.len() == 0 {
        None
    } else if scopes.last().contains_key(name) {
        Some(scopes.last()[name])
    } else {
        lookup(scopes.drop_last(), name)
    }
}

/// The scopes after `name` is bound to `v` in the innermost one. Without a
/// scope there is nothing to bind in.
pub open spec fn bind(scopes: Seq<ScopeView>, name: Seq<char>, v: ValueView) -> Seq<ScopeView> {
    if scopes.len() == 0 {
        scopes
    } else {
        scopes.update(scopes.len() - 1, scopes.last().insert(name, v))
    }
}

/// The scopes without the innermost one.
pub open spec fn pop(scopes: Seq<ScopeView>) -> Seq<ScopeView> {
    if scopes.len() == 0 {
        scopes
    } else {
        scopes.drop_last()
    }
}

/// The result of a binary operation: the sum of two integers where it fits
/// in 64 bits, the comparison of two integers, and nothing else.
pub open spec fn binary(l: ValueView, op: Seq<char>, r: ValueView) -> Option<ValueView> {
    match (l, r) {
        (ValueView::Int(a), ValueView::Int(b)) => {
            if op == op_add() {
                if i64::MIN <= a + b <= i64::MAX {
                    Some(ValueView::Int((a + b) as i64))
                } else {
                    None
                }
            } else if op == op_less() {
                Some(ValueView::Bool(a < b))
            } else {
                None
            }
        },
        _ => None,
    }
}

/// The value of an expression, if it has one.
pub open spec fn eval_expr(scopes: Seq<ScopeView>, e: ExprView) -> Option<ValueView>
    decreases e,
{
    match e {
        ExprView::Literal(v) => Some(v),
        ExprView::Variable(name) => lookup(scopes, name),
        ExprView::BinaryOp(l, op, r) => match eval_expr(scopes, *l) {
            None => None,
            Some(lv) => match eval_expr(scopes, *r) {
                None => None,
                Some(rv) => binary(lv, op, rv),
            },
        },
    }
}

/// The values of the arguments of a call, if each of them has one.
pub open spec fn eval_args(scopes: Seq<ScopeView>, args: Seq<ExprView>) -> Option<Seq<ValueView>> {
    if forall|i: int| 0 <= i < args.len() ==> (#[trigger] eval_expr(scopes, args[i])) is Some {
        Some(Seq::new(args.len(), |i: int| eval_expr(scopes, args[i])->0))
    } else {
        None
    }
}

/// The scope of a call with the first `n` parameters bound to the first `n`
/// arguments, in order.
pub open spec fn bind_params(params: Seq<Seq<char>>, args: Seq<ValueView>, n: nat) -> ScopeView
    decreases n,
{
    if n == 0 {
        Map::empty()
    } else {
        bind_params(params, args, (n - 1) as nat).insert(params[n - 1], args[n - 1])
    }
}

/// The scope in which the body of a call runs: parameters are bound to
/// arguments by position, as far as both go.
pub open spec fn call_scope(params: Seq<Seq<char>>, args: Seq<ValueView>) -> ScopeView {
    bind_params(
        params,
        args,
        if params.len() <= args.len() {
            params.len()
        } else {
            args.len()
        },
    )
}

/// What a host function returns for its arguments.
pub open spec fn native_result(f: NativeFn, args: Seq<ValueView>) -> Option<ValueView> {
    match f {
        NativeFn::SpawnBall => None,
    }
}

/// What the host has received after a host function was called.
pub open spec fn native_host(f: NativeFn, args: Seq<ValueView>, h: HostView) -> HostView {
    match f {
        NativeFn::SpawnBall => HostView { spawns: h.spawns + 1, ..h },
    }
}

/// The state after a host function was called: only the host's side
/// changes.
pub open spec fn native_effect(f: NativeFn, args: Seq<ValueView>, m: Machine) -> Machine {
    Machine { host: native_host(f, args, m.host), ..m }
}

/// What `name` stands for in a call: a host function bound to it in scope
/// comes before a user function of that name.
pub open spec fn resolve(
    scopes: Seq<ScopeView>,
    functions: Map<Seq<char>, FunctionDefView>,
    name: Seq<char>,
) -> Option<CallableView> {
    match lookup(scopes, name) {
        Some(ValueView::Native(f)) => Some(CallableView::Native(f)),
        _ => if functions.contains_key(name) {
            Some(CallableView::User(functions[name]))
        } else {
            None
        },
    }
}

impl Machine {
    /// The state after `name` is bound to `v` in the innermost scope.
    pub open spec fn bind(self, name: Seq<char>, v: ValueView) -> Machine {
        Machine { scopes: bind(self.scopes, name, v), ..self }
    }

    /// The state after `r` is emitted.
    pub open spec fn emit(self, r: OutputRecordView) -> Machine {
        Machine { host: HostView { records: self.host.records.push(r), ..self.host }, ..self }
    }

    /// The state after a diagnostic is emitted.
    pub open spec fn report(self, d: DiagnosticView) -> Machine {
        self.emit(OutputRecordView::Diagnostic(d))
    }

    /// The state with `scope` as the new innermost scope.
    pub open spec fn push(self, scope: ScopeView) -> Machine {
        Machine { scopes: self.scopes.push(scope), ..self }
    }

    /// The state without the innermost scope.
    pub open spec fn pop(self) -> Machine {
        Machine { scopes: pop(self.scopes), ..self }
    }

    /// The state after the function `name` is declared as `def`.
    pub open spec fn define(self, name: Seq<char>, def: FunctionDefView) -> Machine {
        Machine { functions: self.functions.insert(name, def), ..self }
    }
}

/// The most scopes that a run may hold open at once. Each iteration of a
/// `for` loop and each call of a user function opens one, so this bounds
/// how deep calls may nest.
pub const MAX_DEPTH: usize = 512;

/// The outcome of a statement that ran to its end in no more than its own
/// step.
pub open spec fn finished(m: Machine) -> Outcome {
    Outcome { machine: m, flow: Flow::Normal, used: 0 }
}

/// The budget left after `used` steps.
pub open spec fn spend(budget: nat, used: nat) -> nat {
    if used <= budget {
        (budget - used) as nat
    } else {
        0
    }
}

/// The outcome of `first` followed by `rest`.
pub open spec fn followed_by(first: Outcome, rest: Outcome) -> Outcome {
    Outcome { machine: rest.machine, flow: rest.flow, used: first.used + rest.used }
}

/// Executes one statement. Each statement costs one step; with no step left
/// nothing happens and the run is exhausted.
///
/// - A declaration binds its name in the innermost scope.
/// - An assignment binds its name in the innermost scope as well, also
///   where an outer scope binds the name: the outer binding is shadowed,
///   not changed. So an assignment in the body of a `for` loop is gone
///   behind the iteration, and one in the body of a `while` loop stays.
/// - A print statement emits the text of its expression's value.
/// - A function declaration enters the function in the one table of
///   functions, replacing a function of the same name.
/// - A call statement ends as the called function ends: where the function
///   returns a value, the statement returns it to the body it stands in.
/// - A `return` ends its statement with the value of its expression.
/// - An expression without a value is reported by a print statement and an
///   assignment, and passed over in silence by a `return`; the statement
///   ends normally and the run goes on.
pub open spec fn exec_stmt(m: Machine, s: StmtView, budget: nat) -> Outcome
    decreases budget, 0nat, 0nat,
{
    if budget == 0 {
        Outcome { machine: m, flow: Flow::Exhausted, used: 0 }
    } else {
        let left = (budget - 1) as nat;
        let o = match s {
            StmtView::VarDecl { name, type_annotation, value } => finished(m.bind(name, value)),
            StmtView::PrintExpr(e) => match eval_expr(m.scopes, e) {
                Some(v) => finished(m.emit(OutputRecordView::Print(render(v)))),
                None => finished(m.report(DiagnosticView::PrintFailed)),
            },
            StmtView::ForLoop { var_name, start, end, body } => exec_for(
                m,
                var_name,
                start as int,
                end as int,
                body,
                left,
            ),
            StmtView::While { condition, body } => exec_while(m, condition, body, left),
            StmtView::Function { name, parameters, body } => finished(
                m.define(name, FunctionDefView { parameters, body }),
            ),
            StmtView::FunctionCall { name, arguments } => exec_call(m, name, arguments, left),
            StmtView::Assignment { name, expr } => match eval_expr(m.scopes, expr) {
                Some(v) => finished(m.bind(name, v)),
                None => finished(m.report(DiagnosticView::AssignmentFailed)),
            },
            StmtView::Return(e) => match eval_expr(m.scopes, e) {
                Some(v) => Outcome { machine: m, flow: Flow::Return(v), used: 0 },
                None => finished(m),
            },
        };
        Outcome { machine: o.machine, flow: o.flow, used: o.used + 1 }
    }
}

/// Executes the statements of a body from index `i` on, in order, until one
/// of them does not end normally.
pub open spec fn exec_block(m: Machine, stmts: Seq<StmtView>, i: int, budget: nat) -> Outcome
    decreases budget, 1nat, stmts.len() - i,
{
    if i < 0 || i >= stmts.len() {
        finished(m)
    } else {
        let o = exec_stmt(m, stmts[i], budget);
        match o.flow {
            Flow::Normal => followed_by(
                o,
                exec_block(o.machine, stmts, i + 1, spend(budget, o.used)),
            ),
            _ => o,
        }
    }
}

/// Executes the iterations `i..end` of a `for` loop. Each iteration costs
/// one step and runs the body in a scope of its own, in which the loop
/// variable is bound to the counter. Where no step is left, or no further
/// scope may be opened, the run is exhausted.
pub open spec fn exec_for(
    m: Machine,
    var: Seq<char>,
    i: int,
    end: int,
    body: Seq<StmtView>,
    budget: nat,
) -> Outcome
    decreases budget, 2nat, end - i,
{
    if i >= end {
        finished(m)
    } else if budget == 0 || m.scopes.len() >= MAX_DEPTH {
        Outcome { machine: m, flow: Flow::Exhausted, used: 0 }
    } else {
        let left = (budget - 1) as nat;
        let inner = exec_block(
            m.push(Map::empty()).bind(var, ValueView::Int(i as i64)),
            body,
            0,
            left,
        );
        let o = Outcome { machine: inner.machine.pop(), flow: inner.flow, used: inner.used + 1 };
        match o.flow {
            Flow::Normal => followed_by(
                o,
                exec_for(o.machine, var, i + 1, end, body, spend(left, inner.used)),
            ),
            _ => o,
        }
    }
}

/// Executes a `while` loop: as long as the condition is the boolean true,
/// an iteration costs one step and runs the body in the enclosing scope.
pub open spec fn exec_while(
    m: Machine,
    condition: ExprView,
    body: Seq<StmtView>,
    budget: nat,
) -> Outcome
    decreases budget, 2nat, 0nat,
{
    if eval_expr(m.scopes, condition) != Some(ValueView::Bool(true)) {
        finished(m)
    } else if budget == 0 {
        Outcome { machine: m, flow: Flow::Exhausted, used: 0 }
    } else {
        let left = (budget - 1) as nat;
        let inner = exec_block(m, body, 0, left);
        let o = Outcome { machine: inner.machine, flow: inner.flow, used: inner.used + 1 };
        match o.flow {
            Flow::Normal => followed_by(
                o,
                exec_while(o.machine, condition, body, spend(left, inner.used)),
            ),
            _ => o,
        }
    }
}

/// Calls a user function: its body runs in a new scope that binds the
/// parameters, and what the body returns is what the call returns. Where no
/// further scope may be opened, the run is exhausted.
pub open spec fn call_function(
    m: Machine,
    def: FunctionDefView,
    args: Seq<ValueView>,
    budget: nat,
) -> Outcome
    decreases budget, 2nat, 0nat,
{
    if m.scopes.len() >= MAX_DEPTH {
        Outcome { machine: m, flow: Flow::Exhausted, used: 0 }
    } else {
        let o = exec_block(m.push(call_scope(def.parameters, args)), def.body, 0, budget);
        Outcome { machine: o.machine.pop(), flow: o.flow, used: o.used }
    }
}

/// Executes a call statement: the arguments are evaluated first; then a
/// host function is called, or a user function, or the name is reported as
/// unknown.
pub open spec fn exec_call(
    m: Machine,
    name: Seq<char>,
    arguments: Seq<ExprView>,
    budget: nat,
) -> Outcome
    decreases budget, 3nat, 0nat,
{
    match eval_args(m.scopes, arguments) {
        None => finished(m.report(DiagnosticView::ArgumentFailed)),
        Some(args) => match resolve(m.scopes, m.functions, name) {
            Some(CallableView::Native(f)) => Outcome {
                machine: native_effect(f, args, m),
                flow: match native_result(f, args) {
                    Some(v) => Flow::Return(v),
                    None => Flow::Normal,
                },
                used: 0,
            },
            Some(CallableView::User(def)) => call_function(m, def, args, budget),
            None => finished(m.report(DiagnosticView::FunctionNotFound(name))),
        },
    }
}

/// Executes the statements of a program from index `i` on. A value
/// returned at this level is emitted as a record of its own and the program
/// goes on; a used-up budget is reported and ends the run.
pub open spec fn exec_program(m: Machine, stmts: Seq<StmtView>, i: int, budget: nat) -> Outcome
    decreases budget, 4nat, stmts.len() - i,
{
    if i < 0 || i >= stmts.len() {
        finished(m)
    } else {
        let o = exec_stmt(m, stmts[i], budget);
        match o.flow {
            Flow::Normal => followed_by(
                o,
                exec_program(o.machine, stmts, i + 1, spend(budget, o.used)),
            ),
            Flow::Return(v) => followed_by(
                o,
                exec_program(
                    o.machine.emit(OutputRecordView::Returned(render(v))),
                    stmts,
                    i + 1,
                    spend(budget, o.used),
                ),
            ),
            Flow::Exhausted => Outcome {
                machine: o.machine.report(DiagnosticView::BudgetExceeded),
                flow: Flow::Exhausted,
                used: o.used,
            },
        }
    }
}

} // verus!
