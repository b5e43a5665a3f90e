//! The evaluator: it walks the syntax tree, keeps the scopes and the
//! function table, and counts down a step budget.

use crate::grammar::program;
use crate::laws::{
    lemma_block_frame, lemma_call_function_frame, lemma_program_frame, lemma_stmt_frame,
};
use crate::lexeme::{
    clone_names, clone_statements, exprs_view, lemma_stmts_view, names_view, stmts_view, Expr,
    FunctionDef, FunctionDefView, NativeFn, Statement, Value, ValueView,
};
use crate::native::{build_native_fn_table, call_native, native_table, value_view, values_view};
use crate::parser::parse;
use crate::resources::{
    BudgetExceeded, Diagnostic, DiagnosticView, Host, HostView, OutputRecord,
};
use crate::semantics::{
    bind, bind_params, binary, call_function, call_scope, eval_args, eval_expr, exec_block,
    exec_call, exec_for, exec_program, exec_stmt, exec_while, lookup, pop, render, resolve,
    CallableView, Flow, Machine, Outcome, ScopeView, MAX_DEPTH,
};
use crate::table::{entries_map, Table};
use crate::text::{render_decimal, render_int};
use vstd::prelude::*;
use vstd::string::*;

verus! {

/// The steps that a run may take where no other budget is given.
pub const DEFAULT_BUDGET: u64 = 1_000_000;

/// What a name called as a function stands for.
pub enum Callable {
    Native(NativeFn),
    User(FunctionDef),
}

impl View for Callable {
    type V = CallableView;

    open spec fn view(&self) -> CallableView {
        match self {
            Callable::Native(f) => CallableView::Native(*f),
            Callable::User(def) => CallableView::User(def@),
        }
    }
}

/// A function as a call finds it: the name it was called by and what the
/// name stands for.
pub struct Function {
    pub name: String,
    pub callable: Callable,
}

/// The scope that binds each host function's name to the function.
pub open spec fn global_scope(natives: Map<Seq<char>, NativeFn>) -> ScopeView {
    Map::new(|k: Seq<char>| natives.contains_key(k), |k: Seq<char>| ValueView::Native(natives[k]))
}

/// The views of a stack of scopes, one for one.
pub open spec fn scopes_view(s: Seq<Table<Value>>) -> Seq<ScopeView> {
    Seq::new(s.len(), |i: int| s[i]@)
}

/// How a statement's result reads as an outcome.
pub open spec fn flow_of(r: Result<Option<Value>, BudgetExceeded>) -> Flow {
    match r {
        Ok(None) => Flow::Normal,
        Ok(Some(v)) => Flow::Return(v@),
        Err(_) => Flow::Exhausted,
    }
}

impl Value {
    /// The text of this value: numbers in decimal, a string as it is, a
    /// boolean by its name, a host function by a fixed token.
    pub fn render(&self) -> (r: String)
        ensures
            r@ == render(self@),
    {
        match self {
            Value::Int(n) => render_int(*n),
            Value::Float(d) => render_decimal(d.whole.as_str(), d.frac.as_str()),
            Value::Str(s) => s.clone(),
            Value::Bool(b) => if *b {
                String::from_str("true")
            } else {
                String::from_str("false")
            },
            Value::Native(_) => String::from_str("[native function]"),
        }
    }
}

/// Whether `op` is the one character `c`.
fn is_op(op: &String, c: char) -> (r: bool)
    ensures
        r == (op@ == seq![c]),
{
    let s = op.as_str();
    if s.unicode_len() == 1 {
        let d = s.get_char(0);
        assert(d == c ==> op@ =~= seq![c]);
        d == c
    } else {
        false
    }
}

/// The result of a binary operation on two values.
pub fn apply_binary(l: &Value, op: &String, r: &Value) -> (res: Option<Value>)
    ensures
        value_view(res) == binary(l@, op@, r@),
{
    match (l, r) {
        (Value::Int(a), Value::Int(b)) => {
            if is_op(op, '+') {
                match a.checked_add(*b) {
                    Some(sum) => Some(Value::Int(sum)),
                    None => None,
                }
            } else if is_op(op, '<') {
                Some(Value::Bool(*a < *b))
            } else {
                None
            }
        },
        _ => None,
    }
}

/// The evaluator's state: the stack of scopes (innermost last), the table
/// of user functions and the steps that are left.
pub struct Interpreter {
    pub scopes: Vec<Table<Value>>,
    pub functions: Table<FunctionDef>,
    pub budget: u64,
}

impl Interpreter {
    /// The state of the run that this evaluator and `host` are in.
    pub open spec fn machine(self, host: Host) -> Machine {
        Machine { scopes: scopes_view(self.scopes@), functions: self.functions@, host: host@ }
    }

    /// There is at least the global scope.
    pub open spec fn wf(self) -> bool {
        self.scopes@.len() >= 1
    }

    /// An evaluator with the default budget: one global scope, in which
    /// each host function is bound to its name, and no user function.
    pub fn new() -> (r: Self)
        ensures
            r.wf(),
            scopes_view(r.scopes@) == seq![global_scope(native_table())],
            r.functions@ == Map::<Seq<char>, FunctionDefView>::empty(),
            r.budget == DEFAULT_BUDGET,
    {
        Interpreter::with_budget(DEFAULT_BUDGET)
    }

    /// An evaluator like a new one, with `budget` steps.
    pub fn with_budget(budget: u64) -> (r: Self)
        ensures
            r.wf(),
            scopes_view(r.scopes@) == seq![global_scope(native_table())],
            r.functions@ == Map::<Seq<char>, FunctionDefView>::empty(),
            r.budget == budget,
    {
        let natives = build_native_fn_table();
        let mut global: Table<Value> = Table::new();
        let mut i: usize = 0;
        while i < natives.entries.len()
            invariant
                i <= natives.entries@.len(),
                global@ =~= global_scope(entries_map(natives.entries@.take(i as int))),
            decreases natives.entries@.len() - i,
        {
            proof {
                assert(natives.entries@.take(i + 1).drop_last() =~= natives.entries@.take(
                    i as int,
                ));
            }
            global.insert(natives.entries[i].0.clone(), Value::Native(natives.entries[i].1));
            i = i + 1;
        }
        assert(natives.entries@.take(i as int) =~= natives.entries@);
        let mut scopes: Vec<Table<Value>> = Vec::new();
        scopes.push(global);
        let r = Interpreter { scopes, functions: Table::new(), budget };
        assert(scopes_view(r.scopes@) =~= seq![global_scope(native_table())]);
        r
    }

    /// Opens a new innermost scope.
    pub fn push_scope(&mut self)
        ensures
            scopes_view(final(self).scopes@) == scopes_view(old(self).scopes@).push(Map::empty()),
            final(self).functions == old(self).functions,
            final(self).budget == old(self).budget,
    {
        self.scopes.push(Table::new());
        assert(scopes_view(self.scopes@) =~= scopes_view(old(self).scopes@).push(Map::empty()));
    }

    /// Closes the innermost scope.
    pub fn pop_scope(&mut self)
        ensures
            scopes_view(final(self).scopes@) == pop(scopes_view(old(self).scopes@)),
            final(self).functions == old(self).functions,
            final(self).budget == old(self).budget,
    {
        self.scopes.pop();
        assert(scopes_view(self.scopes@) =~= pop(scopes_view(old(self).scopes@)));
    }

    /// Binds `name` to `value` in the innermost scope.
    pub fn set_var(&mut self, name: String, value: Value)
        ensures
            scopes_view(final(self).scopes@) == bind(scopes_view(old(self).scopes@), name@, value@),
            final(self).functions == old(self).functions,
            final(self).budget == old(self).budget,
    {
        match self.scopes.pop() {
            Some(top) => {
                let mut top = top;
                top.insert(name, value);
                self.scopes.push(top);
                assert(scopes_view(self.scopes@) =~= bind(
                    scopes_view(old(self).scopes@),
                    name@,
                    value@,
                ));
            },
            None => {
                assert(scopes_view(self.scopes@) =~= scopes_view(old(self).scopes@));
            },
        }
    }

    /// The value of `name` in the innermost scope that binds it.
    pub fn get_var(&self, name: &str) -> (r: Option<Value>)
        ensures
            value_view(r) == lookup(scopes_view(self.scopes@), name@),
    {
        let key = String::from_str(name);
        self.find_var(&key)
    }

    /// The value of `name` in the innermost scope that binds it.
    fn find_var(&self, name: &String) -> (r: Option<Value>)
        ensures
            value_view(r) == lookup(scopes_view(self.scopes@), name@),
    {
        let ghost all = scopes_view(self.scopes@);
        let mut i: usize = self.scopes.len();
        assert(all.take(i as int) =~= all);
        while i > 0
            invariant
                i <= self.scopes@.len(),
                all == scopes_view(self.scopes@),
                lookup(all, name@) == lookup(all.take(i as int), name@),
            decreases i,
        {
            i = i - 1;
            proof {
                assert(all.take(i + 1).last() == all[i as int]);
                assert(all.take(i + 1).drop_last() =~= all.take(i as int));
            }
            match self.scopes[i].get(name) {
                Some(v) => {
                    return Some(v.clone());
                },
                None => {},
            }
        }
        None
    }

    /// The value of an expression, if it has one.
    pub fn eval_expr(&self, expr: &Expr) -> (r: Option<Value>)
        ensures
            value_view(r) == eval_expr(scopes_view(self.scopes@), expr@),
        decreases expr,
    {
        match expr {
            Expr::Literal(v) => Some(v.clone()),
            Expr::Variable(name) => self.find_var(name),
            Expr::BinaryOp(left, op, right) => {
                let l = match self.eval_expr(left) {
                    Some(v) => v,
                    None => {
                        return None;
                    },
                };
                let r = match self.eval_expr(right) {
                    Some(v) => v,
                    None => {
                        return None;
                    },
                };
                apply_binary(&l, op, &r)
            },
        }
    }

    /// The values of the arguments of a call, if each of them has one.
    pub fn eval_arguments(&self, arguments: &Vec<Expr>) -> (r: Option<Vec<Value>>)
        ensures
            match r {
                Some(v) => eval_args(scopes_view(self.scopes@), exprs_view(arguments@)) == Some(
                    values_view(v@),
                ),
                None => eval_args(scopes_view(self.scopes@), exprs_view(arguments@)) is None,
            },
    {
        let ghost scopes = scopes_view(self.scopes@);
        let ghost args = exprs_view(arguments@);
        let mut values: Vec<Value> = Vec::new();
        let mut i: usize = 0;
        while i < arguments.len()
            invariant
                i <= arguments@.len(),
                scopes == scopes_view(self.scopes@),
                args == exprs_view(arguments@),
                values@.len() == i,
                forall|j: int|
                    0 <= j < i ==> eval_expr(scopes, args[j]) == Some(#[trigger] values@[j]@),
            decreases arguments@.len() - i,
        {
            match self.eval_expr(&arguments[i]) {
                Some(v) => {
                    values.push(v);
                },
                None => {
                    assert(eval_expr(scopes, args[i as int]) is None);
                    return None;
                },
            }
            i = i + 1;
        }
        proof {
            assert forall|j: int| 0 <= j < args.len() implies (#[trigger] eval_expr(
                scopes,
                args[j],
            )) is Some by {
                assert(eval_expr(scopes, args[j]) == Some(values@[j]@));
            }
            assert(eval_args(scopes, args)->0 =~= values_view(values@));
        }
        Some(values)
    }

    /// What `name` stands for in a call: a host function bound to the name
    /// in scope, else the user function of that name, else nothing.
    pub fn resolve(&self, name: &String) -> (r: Option<Function>)
        ensures
            match r {
                Some(f) => f.name@ == name@ && resolve(
                    scopes_view(self.scopes@),
                    self.functions@,
                    name@,
                ) == Some(f.callable@),
                None => resolve(scopes_view(self.scopes@), self.functions@, name@) is None,
            },
    {
        match self.find_var(name) {
            Some(Value::Native(f)) => {
                return Some(Function { name: name.clone(), callable: Callable::Native(f) });
            },
            _ => {},
        }
        match self.functions.get(name) {
            Some(def) => Some(
                Function { name: name.clone(), callable: Callable::User(def.clone()) },
            ),
            None => None,
        }
    }
}

impl Interpreter {
    /// Executes one statement. `Ok(None)` says that it ran to its end,
    /// `Ok(Some(v))` that a `return` was met and `v` travels up, `Err` that
    /// the step budget was used up.
    pub fn eval_statement(&mut self, stmt: &Statement, host: &mut Host) -> (r: Result<
        Option<Value>,
        BudgetExceeded,
    >)
        ensures
            ({
                let o = exec_stmt(old(self).machine(*old(host)), stmt@, old(self).budget as nat);
                &&& final(self).machine(*final(host)) == o.machine
                &&& final(self).budget == old(self).budget - o.used
                &&& flow_of(r) == o.flow
            }),
            final(self).scopes@.len() == old(self).scopes@.len(),
        decreases old(self).budget, 0nat, 0nat,
    {
        proof {
            lemma_stmt_frame(self.machine(*host), stmt@, self.budget as nat);
        }
        if self.budget == 0 {
            return Err(BudgetExceeded {  });
        }
        self.budget = self.budget - 1;
        match stmt {
            Statement::VarDecl(var) => {
                self.set_var(var.name.clone(), var.value.clone());
                Ok(None)
            },
            Statement::PrintExpr(expr) => {
                match self.eval_expr(expr) {
                    Some(val) => {
                        host.emit(OutputRecord::Print(val.render()));
                    },
                    None => {
                        host.emit(OutputRecord::Diagnostic(Diagnostic::PrintFailed));
                    },
                }
                Ok(None)
            },
            Statement::ForLoop { var_name, start, end, body } => self.eval_for(
                var_name,
                *start,
                *end,
                body,
                host,
            ),
            Statement::While { condition, body } => self.eval_while(condition, body, host),
            Statement::Function { name, parameters, body } => {
                self.functions.insert(
                    name.clone(),
                    FunctionDef {
                        parameters: clone_names(parameters),
                        body: clone_statements(body),
                    },
                );
                Ok(None)
            },
            Statement::FunctionCall { name, arguments } => self.eval_call(name, arguments, host),
            Statement::Assignment { name, expr } => {
                match self.eval_expr(expr) {
                    Some(val) => {
                        self.set_var(name.clone(), val);
                    },
                    None => {
                        host.emit(OutputRecord::Diagnostic(Diagnostic::AssignmentFailed));
                    },
                }
                Ok(None)
            },
            Statement::Return(expr) => Ok(self.eval_expr(expr)),
        }
    }

    /// Executes the statements of a body in order, until one of them does
    /// not end normally.
    pub fn eval_block(&mut self, stmts: &Vec<Statement>, host: &mut Host) -> (r: Result<
        Option<Value>,
        BudgetExceeded,
    >)
        ensures
            ({
                let o = exec_block(
                    old(self).machine(*old(host)),
                    stmts_view(stmts@),
                    0,
                    old(self).budget as nat,
                );
                &&& final(self).machine(*final(host)) == o.machine
                &&& final(self).budget == old(self).budget - o.used
                &&& flow_of(r) == o.flow
            }),
            final(self).scopes@.len() == old(self).scopes@.len(),
        decreases old(self).budget, 1nat, stmts@.len(),
    {
        proof {
            lemma_block_frame(self.machine(*host), stmts_view(stmts@), 0, self.budget as nat);
        }
        let ghost body = stmts_view(stmts@);
        let ghost whole = exec_block(
            old(self).machine(*old(host)),
            body,
            0,
            old(self).budget as nat,
        );
        proof {
            lemma_stmts_view(stmts@);
        }
        let mut i: usize = 0;
        while i < stmts.len()
            invariant
                i <= stmts@.len(),
                body == stmts_view(stmts@),
                body.len() == stmts@.len(),
                forall|j: int| 0 <= j < stmts@.len() ==> #[trigger] body[j] == stmts@[j]@,
                self.budget <= old(self).budget,
                whole == exec_block(
                    old(self).machine(*old(host)),
                    body,
                    0,
                    old(self).budget as nat,
                ),
                whole.machine.scopes.len() == old(self).scopes@.len(),
                ({
                    let rest = exec_block(self.machine(*host), body, i as int, self.budget as nat);
                    &&& whole.machine == rest.machine
                    &&& whole.flow == rest.flow
                    &&& whole.used == old(self).budget - self.budget + rest.used
                }),
            decreases stmts@.len() - i,
        {
            let r = self.eval_statement(&stmts[i], host);
            match r {
                Ok(None) => {},
                _ => {
                    return r;
                },
            }
            i = i + 1;
        }
        Ok(None)
    }

    /// Executes a `for` loop over `start..end`.
    fn eval_for(
        &mut self,
        var_name: &String,
        start: i64,
        end: i64,
        body: &Vec<Statement>,
        host: &mut Host,
    ) -> (r: Result<Option<Value>, BudgetExceeded>)
        ensures
            ({
                let o = exec_for(
                    old(self).machine(*old(host)),
                    var_name@,
                    start as int,
                    end as int,
                    stmts_view(body@),
                    old(self).budget as nat,
                );
                &&& final(self).machine(*final(host)) == o.machine
                &&& final(self).budget == old(self).budget - o.used
                &&& flow_of(r) == o.flow
            }),
        decreases old(self).budget, 2nat, end - start,
    {
        let ghost stmts = stmts_view(body@);
        let ghost whole = exec_for(
            old(self).machine(*old(host)),
            var_name@,
            start as int,
            end as int,
            stmts,
            old(self).budget as nat,
        );
        let mut i: i64 = start;
        while i < end
            invariant
                start <= i,
                stmts == stmts_view(body@),
                self.budget <= old(self).budget,
                whole == exec_for(
                    old(self).machine(*old(host)),
                    var_name@,
                    start as int,
                    end as int,
                    stmts,
                    old(self).budget as nat,
                ),
                ({
                    let rest = exec_for(
                        self.machine(*host),
                        var_name@,
                        i as int,
                        end as int,
                        stmts,
                        self.budget as nat,
                    );
                    &&& whole.machine == rest.machine
                    &&& whole.flow == rest.flow
                    &&& whole.used == old(self).budget - self.budget + rest.used
                }),
            decreases end - i,
        {
            if self.budget == 0 || self.scopes.len() >= MAX_DEPTH {
                return Err(BudgetExceeded {  });
            }
            self.budget = self.budget - 1;
            self.push_scope();
            self.set_var(var_name.clone(), Value::Int(i));
            let r = self.eval_block(body, host);
            self.pop_scope();
            match r {
                Ok(None) => {},
                _ => {
                    return r;
                },
            }
            i = i + 1;
        }
        Ok(None)
    }

    /// Executes a `while` loop.
    fn eval_while(&mut self, condition: &Expr, body: &Vec<Statement>, host: &mut Host) -> (r:
        Result<Option<Value>, BudgetExceeded>)
        ensures
            ({
                let o = exec_while(
                    old(self).machine(*old(host)),
                    condition@,
                    stmts_view(body@),
                    old(self).budget as nat,
                );
                &&& final(self).machine(*final(host)) == o.machine
                &&& final(self).budget == old(self).budget - o.used
                &&& flow_of(r) == o.flow
            }),
        decreases old(self).budget, 2nat, 0nat,
    {
        let ghost stmts = stmts_view(body@);
        let ghost whole = exec_while(
            old(self).machine(*old(host)),
            condition@,
            stmts,
            old(self).budget as nat,
        );
        loop
            invariant
                stmts == stmts_view(body@),
                self.budget <= old(self).budget,
                whole == exec_while(
                    old(self).machine(*old(host)),
                    condition@,
                    stmts,
                    old(self).budget as nat,
                ),
                ({
                    let rest = exec_while(
                        self.machine(*host),
                        condition@,
                        stmts,
                        self.budget as nat,
                    );
                    &&& whole.machine == rest.machine
                    &&& whole.flow == rest.flow
                    &&& whole.used == old(self).budget - self.budget + rest.used
                }),
            decreases self.budget,
        {
            match self.eval_expr(condition) {
                Some(Value::Bool(true)) => {},
                _ => {
                    return Ok(None);
                },
            }
            if self.budget == 0 {
                return Err(BudgetExceeded {  });
            }
            self.budget = self.budget - 1;
            let r = self.eval_block(body, host);
            match r {
                Ok(None) => {},
                _ => {
                    return r;
                },
            }
        }
    }

    /// Calls a user function with the values of its arguments: the body
    /// runs in a new scope in which the parameters are bound by position.
    pub fn eval_function_call(
        &mut self,
        func: FunctionDef,
        arg_values: Vec<Value>,
        host: &mut Host,
    ) -> (r: Result<Option<Value>, BudgetExceeded>)
        ensures
            ({
                let o = call_function(
                    old(self).machine(*old(host)),
                    func@,
                    values_view(arg_values@),
                    old(self).budget as nat,
                );
                &&& final(self).machine(*final(host)) == o.machine
                &&& final(self).budget == old(self).budget - o.used
                &&& flow_of(r) == o.flow
            }),
            final(self).scopes@.len() == old(self).scopes@.len(),
        decreases old(self).budget, 2nat, 0nat,
    {
        proof {
            lemma_call_function_frame(
                self.machine(*host),
                func@,
                values_view(arg_values@),
                self.budget as nat,
            );
        }
        if self.scopes.len() >= MAX_DEPTH {
            return Err(BudgetExceeded {  });
        }
        let ghost params = names_view(func.parameters@);
        let ghost args = values_view(arg_values@);
        let n = if func.parameters.len() <= arg_values.len() {
            func.parameters.len()
        } else {
            arg_values.len()
        };
        let mut scope: Table<Value> = Table::new();
        let mut i: usize = 0;
        while i < n
            invariant
                i <= n,
                n <= func.parameters@.len(),
                n <= arg_values@.len(),
                params == names_view(func.parameters@),
                args == values_view(arg_values@),
                scope@ == bind_params(params, args, i as nat),
            decreases n - i,
        {
            scope.insert(func.parameters[i].clone(), arg_values[i].clone());
            i = i + 1;
        }
        self.scopes.push(scope);
        assert(scopes_view(self.scopes@) =~= scopes_view(old(self).scopes@).push(
            call_scope(params, args),
        ));
        let r = self.eval_block(&func.body, host);
        self.pop_scope();
        r
    }

    /// Executes a call statement.
    fn eval_call(&mut self, name: &String, arguments: &Vec<Expr>, host: &mut Host) -> (r: Result<
        Option<Value>,
        BudgetExceeded,
    >)
        ensures
            ({
                let o = exec_call(
                    old(self).machine(*old(host)),
                    name@,
                    exprs_view(arguments@),
                    old(self).budget as nat,
                );
                &&& final(self).machine(*final(host)) == o.machine
                &&& final(self).budget == old(self).budget - o.used
                &&& flow_of(r) == o.flow
            }),
        decreases old(self).budget, 3nat, 0nat,
    {
        let args = match self.eval_arguments(arguments) {
            Some(values) => values,
            None => {
                host.emit(OutputRecord::Diagnostic(Diagnostic::ArgumentFailed));
                return Ok(None);
            },
        };
        match self.resolve(name) {
            Some(Function { name: _, callable: Callable::Native(f) }) => Ok(
                call_native(f, args, host),
            ),
            Some(Function { name: _, callable: Callable::User(def) }) => self.eval_function_call(
                def,
                args,
                host,
            ),
            None => {
                host.emit(OutputRecord::Diagnostic(Diagnostic::FunctionNotFound(name.clone())));
                Ok(None)
            },
        }
    }

    /// Executes the statements of a program in order. A value returned at
    /// this level is emitted as a record of its own and the program goes
    /// on; a used-up budget is reported and ends the run with `Err`.
    pub fn eval_program(&mut self, stmts: &Vec<Statement>, host: &mut Host) -> (r: Result<
        (),
        BudgetExceeded,
    >)
        ensures
            ({
                let o = exec_program(
                    old(self).machine(*old(host)),
                    stmts_view(stmts@),
                    0,
                    old(self).budget as nat,
                );
                &&& final(self).machine(*final(host)) == o.machine
                &&& final(self).budget == old(self).budget - o.used
                &&& r is Err <==> o.flow is Exhausted
                &&& r is Ok <==> o.flow is Normal
            }),
            final(self).scopes@.len() == old(self).scopes@.len(),
    {
        proof {
            lemma_program_frame(self.machine(*host), stmts_view(stmts@), 0, self.budget as nat);
        }
        let ghost body = stmts_view(stmts@);
        let ghost whole = exec_program(
            old(self).machine(*old(host)),
            body,
            0,
            old(self).budget as nat,
        );
        proof {
            lemma_stmts_view(stmts@);
        }
        let mut i: usize = 0;
        while i < stmts.len()
            invariant
                i <= stmts@.len(),
                body == stmts_view(stmts@),
                body.len() == stmts@.len(),
                forall|j: int| 0 <= j < stmts@.len() ==> #[trigger] body[j] == stmts@[j]@,
                self.budget <= old(self).budget,
                whole == exec_program(
                    old(self).machine(*old(host)),
                    body,
                    0,
                    old(self).budget as nat,
                ),
                whole.machine.scopes.len() == old(self).scopes@.len(),
                ({
                    let rest = exec_program(
                        self.machine(*host),
                        body,
                        i as int,
                        self.budget as nat,
                    );
                    &&& whole.machine == rest.machine
                    &&& whole.flow == rest.flow
                    &&& whole.used == old(self).budget - self.budget + rest.used
                }),
            decreases stmts@.len() - i,
        {
            match self.eval_statement(&stmts[i], host) {
                Ok(None) => {},
                Ok(Some(value)) => {
                    host.emit(OutputRecord::Returned(value.render()));
                },
                Err(e) => {
                    host.emit(OutputRecord::Diagnostic(Diagnostic::BudgetExceeded));
                    return Err(e);
                },
            }
            i = i + 1;
        }
        Ok(())
    }
}

/// The state in which a fresh run starts: one global scope that binds the
/// host functions, no user function, and `host` as what was sent so far.
pub open spec fn initial_machine(host: HostView) -> Machine {
    Machine {
        scopes: seq![global_scope(native_table())],
        functions: Map::empty(),
        host,
    }
}

/// What running the source text `source` from the state `m` leads to: a
/// text that is no program is reported and nothing is executed; a program
/// is executed statement by statement.
pub open spec fn run_outcome(m: Machine, source: Seq<char>, budget: nat) -> Outcome {
    match program(source) {
        Err(e) => Outcome {
            machine: m.report(DiagnosticView::Syntax(e)),
            flow: Flow::Normal,
            used: 0,
        },
        Ok(stmts) => exec_program(m, stmts, 0, budget),
    }
}

/// The diagnostic with which a run of `source` from `m` fails, if it fails.
pub open spec fn run_failure(m: Machine, source: Seq<char>, budget: nat) -> Option<DiagnosticView> {
    match program(source) {
        Err(e) => Some(DiagnosticView::Syntax(e)),
        Ok(stmts) => if exec_program(m, stmts, 0, budget).flow is Exhausted {
            Some(DiagnosticView::BudgetExceeded)
        } else {
            None
        },
    }
}

impl Interpreter {
    /// Parses `source_code` and executes it in this evaluator's state. It
    /// fails with the syntax error of a text that is no program, and with
    /// `BudgetExceeded` where the steps run out; either way the diagnostic
    /// is also the last record sent to `host`.
    pub fn run(&mut self, source_code: &str, host: &mut Host) -> (r: Result<(), Diagnostic>)
        ensures
            ({
                let o = run_outcome(
                    old(self).machine(*old(host)),
                    source_code@,
                    old(self).budget as nat,
                );
                let failure = run_failure(
                    old(self).machine(*old(host)),
                    source_code@,
                    old(self).budget as nat,
                );
                &&& final(self).machine(*final(host)) == o.machine
                &&& final(self).budget == old(self).budget - o.used
                &&& match r {
                    Ok(_) => failure is None,
                    Err(d) => failure == Some(d@),
                }
            }),
            final(self).scopes@.len() == old(self).scopes@.len(),
    {
        match parse(source_code) {
            Err(e) => {
                host.emit(OutputRecord::Diagnostic(Diagnostic::Syntax(e)));
                Err(Diagnostic::Syntax(e))
            },
            Ok(stmts) => match self.eval_program(&stmts, host) {
                Ok(_) => Ok(()),
                Err(_) => Err(Diagnostic::BudgetExceeded),
            },
        }
    }
}

/// Runs the source text `source` in a fresh evaluator with the default
/// budget, sending its output to `host`.
pub fn run(source: String, host: &mut Host) -> (r: Result<(), Diagnostic>)
    ensures
        final(host)@ == run_outcome(
            initial_machine(old(host)@),
            source@,
            DEFAULT_BUDGET as nat,
        ).machine.host,
        match r {
            Ok(_) => run_failure(initial_machine(old(host)@), source@, DEFAULT_BUDGET as nat)
                is None,
            Err(d) => run_failure(initial_machine(old(host)@), source@, DEFAULT_BUDGET as nat)
                == Some(d@),
        },
{
    let mut interp = Interpreter::new();
    interp.run(source.as_str(), host)
}

} // verus!
