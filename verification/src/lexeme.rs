//! Values and the syntax tree: expressions, statements and function
//! definitions, each with the mathematical view that contracts speak of.

use vstd::prelude::*;

verus! {

/// A function that the host provides.
#[derive(Clone, Copy, Debug, PartialEq, Eq)]
pub enum NativeFn {
    /// Asks the host to spawn a ball.
    SpawnBall,
}

impl View for NativeFn {
    type V = NativeFn;

    open spec fn view(&self) -> NativeFn {
        *self
    }
}

/// A decimal number as it was written: the digits before the point and the
/// digits behind it.
#[derive(Debug, PartialEq, Eq)]
pub struct Decimal {
    pub whole: String,
    pub frac: String,
}

/// A decimal number as mathematics sees it.
pub struct DecimalView {
    pub whole: Seq<char>,
    pub frac: Seq<char>,
}

impl View for Decimal {
    type V = DecimalView;

    open spec fn view(&self) -> DecimalView {
        DecimalView { whole: self.whole@, frac: self.frac@ }
    }
}

impl Clone for Decimal {
    fn clone(&self) -> (r: Self)
        ensures
            r@ == self@,
    {
        Decimal { whole: self.whole.clone(), frac: self.frac.clone() }
    }
}

/// A scalar value of the language.
#[derive(Debug, PartialEq, Eq)]
pub enum Value {
    Int(i64),
    Float(Decimal),
    Str(String),
    Bool(bool),
    Native(NativeFn),
}

/// A value as mathematics sees it: text as a sequence of characters.
pub enum ValueView {
    Int(i64),
    Float(DecimalView),
    Str(Seq<char>),
    Bool(bool),
    Native(NativeFn),
}

impl View for Value {
    type V = ValueView;

    open spec fn view(&self) -> ValueView {
        match self {
            Value::Int(n) => ValueView::Int(*n),
            Value::Float(d) => ValueView::Float(d@),
            Value::Str(s) => ValueView::Str(s@),
            Value::Bool(b) => ValueView::Bool(*b),
            Value::Native(f) => ValueView::Native(*f),
        }
    }
}

impl Clone for Value {
    fn clone(&self) -> (r: Self)
        ensures
            r@ == self@,
    {
        match self {
            Value::Int(n) => Value::Int(*n),
            Value::Float(d) => Value::Float(d.clone()),
            Value::Str(s) => Value::Str(s.clone()),
            Value::Bool(b) => Value::Bool(*b),
            Value::Native(f) => Value::Native(*f),
        }
    }
}

/// An expression. The operator of a binary operation is kept as text.
#[derive(Debug, PartialEq, Eq)]
pub enum Expr {
    Literal(Value),
    Variable(String),
    BinaryOp(Box<Expr>, String, Box<Expr>),
}

/// An expression as mathematics sees it.
pub enum ExprView {
    Literal(ValueView),
    Variable(Seq<char>),
    BinaryOp(Box<ExprView>, Seq<char>, Box<ExprView>),
}

/// The view of an expression.
pub open spec fn expr_view(e: Expr) -> ExprView
    decreases e,
{
    match e {
        Expr::Literal(v) => ExprView::Literal(v@),
        Expr::Variable(n) => ExprView::Variable(n@),
        Expr::BinaryOp(l, op, r) => ExprView::BinaryOp(
            Box::new(expr_view(*l)),
            op@,
            Box::new(expr_view(*r)),
        ),
    }
}

impl View for Expr {
    type V = ExprView;

    open spec fn view(&self) -> ExprView {
        expr_view(*self)
    }
}

impl Clone for Expr {
    fn clone(&self) -> (r: Self)
        ensures
            r@ == self@,
        decreases self,
    {
        match self {
            Expr::Literal(v) => Expr::Literal(v.clone()),
            Expr::Variable(n) => Expr::Variable(n.clone()),
            Expr::BinaryOp(l, op, r) => Expr::BinaryOp(
                Box::new((&**l).clone()),
                op.clone(),
                Box::new((&**r).clone()),
            ),
        }
    }
}

/// The views of a sequence of expressions, one for one.
pub open spec fn exprs_view(s: Seq<Expr>) -> Seq<ExprView> {
    Seq::new(s.len(), |i: int| expr_view(s[i]))
}

/// The views of a sequence of names, one for one.
pub open spec fn names_view(s: Seq<String>) -> Seq<Seq<char>> {
    Seq::new(s.len(), |i: int| s[i]@)
}

/// A declared variable: its name, the type it was annotated with (kept for
/// information only) and its initial value.
#[derive(Debug, PartialEq, Eq)]
pub struct Variable {
    pub name: String,
    pub type_annotation: String,
    pub value: Value,
}

/// A statement.
#[derive(Debug, PartialEq, Eq)]
pub enum Statement {
    VarDecl(Variable),
    PrintExpr(Expr),
    ForLoop { var_name: String, start: i64, end: i64, body: Vec<Statement> },
    While { condition: Expr, body: Vec<Statement> },
    Function { name: String, parameters: Vec<String>, body: Vec<Statement> },
    FunctionCall { name: String, arguments: Vec<Expr> },
    Assignment { name: String, expr: Expr },
    Return(Expr),
}

/// A statement as mathematics sees it: a body as a sequence of statements.
pub enum StmtView {
    VarDecl { name: Seq<char>, type_annotation: Seq<char>, value: ValueView },
    PrintExpr(ExprView),
    ForLoop { var_name: Seq<char>, start: i64, end: i64, body: Seq<StmtView> },
    While { condition: ExprView, body: Seq<StmtView> },
    Function { name: Seq<char>, parameters: Seq<Seq<char>>, body: Seq<StmtView> },
    FunctionCall { name: Seq<char>, arguments: Seq<ExprView> },
    Assignment { name: Seq<char>, expr: ExprView },
    Return(ExprView),
}

/// The views of a sequence of statements, one for one.
pub open spec fn stmts_view(s: Seq<Statement>) -> Seq<StmtView>
    decreases s, 0int,
{
    if s.len() == 0 {
        Seq::empty()
    } else {
        stmts_view(s.drop_last()).push(stmt_view(s.last()))
    }
}

/// The view of a statement.
pub open spec fn stmt_view(s: Statement) -> StmtView
    decreases s, 1int,
{
    match s {
        Statement::VarDecl(v) => StmtView::VarDecl {
            name: v.name@,
            type_annotation: v.type_annotation@,
            value: v.value@,
        },
        Statement::PrintExpr(e) => StmtView::PrintExpr(e@),
        Statement::ForLoop { var_name, start, end, body } => StmtView::ForLoop {
            var_name: var_name@,
            start,
            end,
            body: stmts_view(body@),
        },
        Statement::While { condition, body } => StmtView::While {
            condition: condition@,
            body: stmts_view(body@),
        },
        Statement::Function { name, parameters, body } => StmtView::Function {
            name: name@,
            parameters: names_view(parameters@),
            body: stmts_view(body@),
        },
        Statement::FunctionCall { name, arguments } => StmtView::FunctionCall {
            name: name@,
            arguments: exprs_view(arguments@),
        },
        Statement::Assignment { name, expr } => StmtView::Assignment { name: name@, expr: expr@ },
        Statement::Return(e) => StmtView::Return(e@),
    }
}

impl View for Statement {
    type V = StmtView;

    open spec fn view(&self) -> StmtView {
        stmt_view(*self)
    }
}

/// `stmts_view` keeps the length and views each statement in place.
pub proof fn lemma_stmts_view(s: Seq<Statement>)
    ensures
        stmts_view(s).len() == s.len(),
        forall|i: int| 0 <= i < s.len() ==> #[trigger] stmts_view(s)[i] == stmt_view(s[i]),
    decreases s.len(),
{
    if s.len() > 0 {
        lemma_stmts_view(s.drop_last());
    }
}

/// Viewing after a push is pushing the view.
pub proof fn lemma_stmts_view_push(s: Seq<Statement>, x: Statement)
    ensures
        stmts_view(s.push(x)) == stmts_view(s).push(stmt_view(x)),
{
    assert(s.push(x).drop_last() =~= s);
}

/// A copy of a list of names.
pub fn clone_names(v: &Vec<String>) -> (r: Vec<String>)
    ensures
        names_view(r@) == names_view(v@),
{
    let mut r: Vec<String> = Vec::new();
    let mut i: usize = 0;
    while i < v.len()
        invariant
            i <= v@.len(),
            r@.len() == i,
            forall|j: int| 0 <= j < i ==> r@[j]@ == v@[j]@,
        decreases v@.len() - i,
    {
        r.push(v[i].clone());
        i = i + 1;
    }
    assert(names_view(r@) =~= names_view(v@));
    r
}

/// A copy of a list of expressions.
pub fn clone_exprs(v: &Vec<Expr>) -> (r: Vec<Expr>)
    ensures
        exprs_view(r@) == exprs_view(v@),
{
    let mut r: Vec<Expr> = Vec::new();
    let mut i: usize = 0;
    while i < v.len()
        invariant
            i <= v@.len(),
            r@.len() == i,
            forall|j: int| 0 <= j < i ==> expr_view(r@[j]) == expr_view(v@[j]),
        decreases v@.len() - i,
    {
        r.push(v[i].clone());
        i = i + 1;
    }
    assert(exprs_view(r@) =~= exprs_view(v@));
    r
}

/// A copy of a list of statements.
pub fn clone_statements(v: &Vec<Statement>) -> (r: Vec<Statement>)
    ensures
        stmts_view(r@) == stmts_view(v@),
    decreases v, 0int,
{
    let mut r: Vec<Statement> = Vec::new();
    let mut i: usize = 0;
    while i < v.len()
        invariant
            i <= v@.len(),
            stmts_view(r@) == stmts_view(v@.take(i as int)),
        decreases v@.len() - i,
    {
        let c = clone_statement(&v[i]);
        proof {
            lemma_stmts_view_push(r@, c);
            lemma_stmts_view_push(v@.take(i as int), v@[i as int]);
            assert(v@.take(i + 1) =~= v@.take(i as int).push(v@[i as int]));
        }
        r.push(c);
        i = i + 1;
    }
    assert(v@.take(v@.len() as int) =~= v@);
    r
}

/// A copy of a statement.
pub fn clone_statement(s: &Statement) -> (r: Statement)
    ensures
        r@ == s@,
    decreases s, 1int,
{
    match s {
        Statement::VarDecl(v) => Statement::VarDecl(
            Variable {
                name: v.name.clone(),
                type_annotation: v.type_annotation.clone(),
                value: v.value.clone(),
            },
        ),
        Statement::PrintExpr(e) => Statement::PrintExpr(e.clone()),
        Statement::ForLoop { var_name, start, end, body } => Statement::ForLoop {
            var_name: var_name.clone(),
            start: *start,
            end: *end,
            body: clone_statements(body),
        },
        Statement::While { condition, body } => Statement::While {
            condition: condition.clone(),
            body: clone_statements(body),
        },
        Statement::Function { name, parameters, body } => Statement::Function {
            name: name.clone(),
            parameters: clone_names(parameters),
            body: clone_statements(body),
        },
        Statement::FunctionCall { name, arguments } => Statement::FunctionCall {
            name: name.clone(),
            arguments: clone_exprs(arguments),
        },
        Statement::Assignment { name, expr } => Statement::Assignment {
            name: name.clone(),
            expr: expr.clone(),
        },
        Statement::Return(e) => Statement::Return(e.clone()),
    }
}

impl Clone for Statement {
    fn clone(&self) -> (r: Self)
        ensures
            r@ == self@,
    {
        clone_statement(self)
    }
}

impl Clone for Variable {
    fn clone(&self) -> (r: Self)
        ensures
            r.name@ == self.name@,
            r.type_annotation@ == self.type_annotation@,
            r.value@ == self.value@,
    {
        Variable {
            name: self.name.clone(),
            type_annotation: self.type_annotation.clone(),
            value: self.value.clone(),
        }
    }
}

/// A user function: the names of its parameters and its body.
#[derive(Debug, PartialEq, Eq)]
pub struct FunctionDef {
    pub parameters: Vec<String>,
    pub body: Vec<Statement>,
}

/// A user function as mathematics sees it.
pub struct FunctionDefView {
    pub parameters: Seq<Seq<char>>,
    pub body: Seq<StmtView>,
}

impl View for FunctionDef {
    type V = FunctionDefView;

    open spec fn view(&self) -> FunctionDefView {
        FunctionDefView { parameters: names_view(self.parameters@), body: stmts_view(self.body@) }
    }
}

impl Clone for FunctionDef {
    fn clone(&self) -> (r: Self)
        ensures
            r@ == self@,
    {
        FunctionDef {
            parameters: clone_names(&self.parameters),
            body: clone_statements(&self.body),
        }
    }
}

} // verus!
