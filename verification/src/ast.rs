//! The syntax tree, and its mathematical form used in contracts.
use vstd::prelude::*;

verus! {

/// Binary operators.
#[derive(Debug, Clone, Copy, PartialEq, Eq)]
pub enum BinaryOp {
    Plus,
    Minus,
    Star,
    Slash,
    Less,
    LessEqual,
    Greater,
    GreaterEqual,
    EqualEqual,
    BangEqual,
}

/// Expressions.
///
/// A number literal carries the IEEE-754 binary64 bit pattern of its value.
#[derive(Debug)]
pub enum Expr {
    Ident(String),
    Number(u64),
    String(String),
    UnaryMinus(Box<Expr>),
    UnaryBang(Box<Expr>),
    Binary { left: Box<Expr>, op: BinaryOp, right: Box<Expr> },
    Call { callee: Box<Expr>, args: Vec<Expr> },
    /// Array literal: `[expr, expr, ...]`
    Array(Vec<Expr>),
    /// Indexing: `array[index]`
    Index { array: Box<Expr>, index: Box<Expr> },
    /// Object literal: `{ key: expr, key2: expr }`
    Object(Vec<(String, Expr)>),
    /// Property access: `object.key`
    Property { object: Box<Expr>, property: String },
}

/// Statements.
#[derive(Debug)]
pub enum Stmt {
    Let { name: String, value: Expr },
    Assign { name: String, value: Expr },
    Return { value: Expr },
    ExprStmt { expr: Expr },
    Block { stmts: Vec<Stmt> },
    Function { name: String, params: Vec<String>, body: Box<Stmt> },
    If { condition: Expr, then_branch: Box<Stmt>, else_branch: Option<Box<Stmt>> },
    While { condition: Expr, body: Box<Stmt> },
    /// Array element assignment: `array[index] = value`
    ArrayAssign { array: Expr, index: Expr, value: Expr },
    /// Object property assignment: `object.key = value`
    ObjectAssign { object: Expr, property: String, value: Expr },
}

/// A user-defined function: its parameters and its body.
#[derive(Debug)]
pub struct FunctionValue {
    pub params: Vec<String>,
    pub body: Box<Stmt>,
}

/// A whole program: its top-level statements.
#[derive(Debug)]
pub struct Program {
    pub stmts: Vec<Stmt>,
}

/// The mathematical form of an expression, with strings as character sequences.
#[verifier::ext_equal]
pub enum SpecExpr {
    Ident(Seq<char>),
    Number(u64),
    String(Seq<char>),
    UnaryMinus(Box<SpecExpr>),
    UnaryBang(Box<SpecExpr>),
    Binary { left: Box<SpecExpr>, op: BinaryOp, right: Box<SpecExpr> },
    Call { callee: Box<SpecExpr>, args: Seq<SpecExpr> },
    Array(Seq<SpecExpr>),
    Index { array: Box<SpecExpr>, index: Box<SpecExpr> },
    Object(Seq<(Seq<char>, SpecExpr)>),
    Property { object: Box<SpecExpr>, property: Seq<char> },
}

/// The mathematical form of a statement.
#[verifier::ext_equal]
pub enum SpecStmt {
    Let { name: Seq<char>, value: SpecExpr },
    Assign { name: Seq<char>, value: SpecExpr },
    Return { value: SpecExpr },
    ExprStmt { expr: SpecExpr },
    Block { stmts: Seq<SpecStmt> },
    Function { name: Seq<char>, params: Seq<Seq<char>>, body: Box<SpecStmt> },
    If { condition: SpecExpr, then_branch: Box<SpecStmt>, else_branch: Option<Box<SpecStmt>> },
    While { condition: SpecExpr, body: Box<SpecStmt> },
    ArrayAssign { array: SpecExpr, index: SpecExpr, value: SpecExpr },
    ObjectAssign { object: SpecExpr, property: Seq<char>, value: SpecExpr },
}

pub open spec fn expr_view(e: Expr) -> SpecExpr
    decreases e,
{
    match e {
        Expr::Ident(s) => SpecExpr::Ident(s@),
        Expr::Number(n) => SpecExpr::Number(n),
        Expr::String(s) => SpecExpr::String(s@),
        Expr::UnaryMinus(x) => SpecExpr::UnaryMinus(Box::new(expr_view(*x))),
        Expr::UnaryBang(x) => SpecExpr::UnaryBang(Box::new(expr_view(*x))),
        Expr::Binary { left, op, right } => SpecExpr::Binary {
            left: Box::new(expr_view(*left)),
            op,
            right: Box::new(expr_view(*right)),
        },
        Expr::Call { callee, args } => SpecExpr::Call {
            callee: Box::new(expr_view(*callee)),
            args: Seq::new(
                args@.len(),
                |i: int|
                    if 0 <= i < args@.len() {
                        expr_view(args@[i])
                    } else {
                        SpecExpr::Number(0)
                    },
            ),
        },
        Expr::Array(items) => SpecExpr::Array(
            Seq::new(
                items@.len(),
                |i: int|
                    if 0 <= i < items@.len() {
                        expr_view(items@[i])
                    } else {
                        SpecExpr::Number(0)
                    },
            ),
        ),
        Expr::Index { array, index } => SpecExpr::Index {
            array: Box::new(expr_view(*array)),
            index: Box::new(expr_view(*index)),
        },
        Expr::Object(fields) => SpecExpr::Object(
            Seq::new(
                fields@.len(),
                |i: int|
                    if 0 <= i < fields@.len() {
                        (fields@[i].0@, expr_view(fields@[i].1))
                    } else {
                        (Seq::empty(), SpecExpr::Number(0))
                    },
            ),
        ),
        Expr::Property { object, property } => SpecExpr::Property {
            object: Box::new(expr_view(*object)),
            property: property@,
        },
    }
}

impl View for Expr {
    type V = SpecExpr;

    open spec fn view(&self) -> SpecExpr {
        expr_view(*self)
    }
}

/// The views of a sequence of expressions.
pub open spec fn exprs_view(v: Seq<Expr>) -> Seq<SpecExpr> {
    Seq::new(v.len(), |i: int| v[i]@)
}

/// The views of a sequence of object fields.
pub open spec fn fields_view(v: Seq<(String, Expr)>) -> Seq<(Seq<char>, SpecExpr)> {
    Seq::new(v.len(), |i: int| (v[i].0@, v[i].1@))
}

/// The views of a sequence of names.
pub open spec fn names_view(v: Seq<String>) -> Seq<Seq<char>> {
    Seq::new(v.len(), |i: int| v[i]@)
}

pub open spec fn stmt_view(s: Stmt) -> SpecStmt
    decreases s,
{
    match s {
        Stmt::Let { name, value } => SpecStmt::Let { name: name@, value: value@ },
        Stmt::Assign { name, value } => SpecStmt::Assign { name: name@, value: value@ },
        Stmt::Return { value } => SpecStmt::Return { value: value@ },
        Stmt::ExprStmt { expr } => SpecStmt::ExprStmt { expr: expr@ },
        Stmt::Block { stmts } => SpecStmt::Block {
            stmts: Seq::new(
                stmts@.len(),
                |i: int|
                    if 0 <= i < stmts@.len() {
                        stmt_view(stmts@[i])
                    } else {
                        SpecStmt::Block { stmts: Seq::empty() }
                    },
            ),
        },
        Stmt::Function { name, params, body } => SpecStmt::Function {
            name: name@,
            params: names_view(params@),
            body: Box::new(stmt_view(*body)),
        },
        Stmt::If { condition, then_branch, else_branch } => SpecStmt::If {
            condition: condition@,
            then_branch: Box::new(stmt_view(*then_branch)),
            else_branch: match else_branch {
                Some(b) => Some(Box::new(stmt_view(*b))),
                None => None,
            },
        },
        Stmt::While { condition, body } => SpecStmt::While {
            condition: condition@,
            body: Box::new(stmt_view(*body)),
        },
        Stmt::ArrayAssign { array, index, value } => SpecStmt::ArrayAssign {
            array: array@,
            index: index@,
            value: value@,
        },
        Stmt::ObjectAssign { object, property, value } => SpecStmt::ObjectAssign {
            object: object@,
            property: property@,
            value: value@,
        },
    }
}

impl View for Stmt {
    type V = SpecStmt;

    open spec fn view(&self) -> SpecStmt {
        stmt_view(*self)
    }
}

/// The views of a sequence of statements.
pub open spec fn stmts_view(v: Seq<Stmt>) -> Seq<SpecStmt> {
    Seq::new(v.len(), |i: int| v[i]@)
}

impl View for Program {
    type V = Seq<SpecStmt>;

    open spec fn view(&self) -> Seq<SpecStmt> {
        stmts_view(self.stmts@)
    }
}

} // verus!

verus! {

/// The view of a node built from these parts, in terms of the views of its parts.
pub proof fn lemma_view_array(items: Vec<Expr>)
    ensures
        Expr::Array(items)@ == SpecExpr::Array(exprs_view(items@)),
{
    let v = Expr::Array(items);
    assert(v@ == expr_view(v));
    if let SpecExpr::Array(s) = expr_view(v) {
        assert(s =~= exprs_view(items@));
    }
}


/// The view of a node built from these parts, in terms of the views of its parts.
pub proof fn lemma_view_call(callee: Box<Expr>, args: Vec<Expr>)
    ensures
        (Expr::Call { callee, args })@ == (SpecExpr::Call {
            callee: Box::new((*callee)@),
            args: exprs_view(args@),
        }),
{
    let v = Expr::Call { callee, args };
    assert(v@ == expr_view(v));
    if let SpecExpr::Call { callee: c, args: s } = expr_view(v) {
        assert(s =~= exprs_view(args@));
    }
}

/// The view of a node built from these parts, in terms of the views of its parts.
pub proof fn lemma_view_object(fields: Vec<(String, Expr)>)
    ensures
        Expr::Object(fields)@ == SpecExpr::Object(fields_view(fields@)),
{
    let v = Expr::Object(fields);
    assert(v@ == expr_view(v));
    if let SpecExpr::Object(s) = expr_view(v) {
        assert(s =~= fields_view(fields@));
    }
}

/// The view of a node built from these parts, in terms of the views of its parts.
pub proof fn lemma_view_block(stmts: Vec<Stmt>)
    ensures
        (Stmt::Block { stmts })@ == (SpecStmt::Block { stmts: stmts_view(stmts@) }),
{
    let v = Stmt::Block { stmts };
    assert(v@ == stmt_view(v));
    if let SpecStmt::Block { stmts: s } = stmt_view(v) {
        assert(s =~= stmts_view(stmts@));
    }
}


/// The view of a node built from these parts, in terms of the views of its parts.
pub proof fn lemma_view_function(name: String, params: Vec<String>, body: Box<Stmt>)
    ensures
        (Stmt::Function { name, params, body })@ == (SpecStmt::Function {
            name: name@,
            params: names_view(params@),
            body: Box::new((*body)@),
        }),
{
}

pub(crate) fn clone_names(v: &Vec<String>) -> (r: Vec<String>)
    ensures
        names_view(r@) == names_view(v@),
{
    let mut r: Vec<String> = Vec::new();
    let mut i: usize = 0;
    while i < v.len()
        invariant
            0 <= i <= v@.len(),
            r@.len() == i,
            forall|j: int| 0 <= j < i ==> #[trigger] r@[j]@ == v@[j]@,
        decreases v@.len() - i,
    {
        r.push(v[i].clone());
        i = i + 1;
    }
    assert(names_view(r@) =~= names_view(v@));
    r
}

fn clone_exprs(v: &Vec<Expr>) -> (r: Vec<Expr>)
    ensures
        exprs_view(r@) == exprs_view(v@),
    decreases v,
{
    let mut r: Vec<Expr> = Vec::new();
    let mut i: usize = 0;
    while i < v.len()
        invariant
            0 <= i <= v@.len(),
            r@.len() == i,
            forall|j: int| 0 <= j < i ==> #[trigger] r@[j]@ == v@[j]@,
        decreases v@.len() - i,
    {
        assert(decreases_to!(v => v@[i as int]));
        r.push(clone_expr(&v[i]));
        i = i + 1;
    }
    assert(exprs_view(r@) =~= exprs_view(v@));
    r
}

fn clone_fields(v: &Vec<(String, Expr)>) -> (r: Vec<(String, Expr)>)
    ensures
        fields_view(r@) == fields_view(v@),
    decreases v,
{
    let mut r: Vec<(String, Expr)> = Vec::new();
    let mut i: usize = 0;
    while i < v.len()
        invariant
            0 <= i <= v@.len(),
            r@.len() == i,
            forall|j: int| 0 <= j < i ==> #[trigger] r@[j].0@ == v@[j].0@ && r@[j].1@ == v@[j].1@,
        decreases v@.len() - i,
    {
        assert(decreases_to!(v => v@[i as int].1));
        r.push((v[i].0.clone(), clone_expr(&v[i].1)));
        i = i + 1;
    }
    assert(fields_view(r@) =~= fields_view(v@));
    r
}

/// A copy of an expression, equal to it.
pub fn clone_expr(e: &Expr) -> (r: Expr)
    ensures
        r@ == e@,
    decreases e,
{
    match e {
        Expr::Ident(s) => Expr::Ident(s.clone()),
        Expr::Number(n) => Expr::Number(*n),
        Expr::String(s) => Expr::String(s.clone()),
        Expr::UnaryMinus(x) => Expr::UnaryMinus(Box::new(clone_expr(x))),
        Expr::UnaryBang(x) => Expr::UnaryBang(Box::new(clone_expr(x))),
        Expr::Binary { left, op, right } => Expr::Binary {
            left: Box::new(clone_expr(left)),
            op: *op,
            right: Box::new(clone_expr(right)),
        },
        Expr::Call { callee, args } => {
            let c = Box::new(clone_expr(callee));
            let a = clone_exprs(args);
            proof {
                lemma_view_call(c, a);
                lemma_view_call(*callee, *args);
            }
            Expr::Call { callee: c, args: a }
        },
        Expr::Array(items) => {
            let a = clone_exprs(items);
            proof {
                lemma_view_array(a);
                lemma_view_array(*items);
            }
            Expr::Array(a)
        },
        Expr::Index { array, index } => Expr::Index {
            array: Box::new(clone_expr(array)),
            index: Box::new(clone_expr(index)),
        },
        Expr::Object(fields) => {
            let f = clone_fields(fields);
            proof {
                lemma_view_object(f);
                lemma_view_object(*fields);
            }
            Expr::Object(f)
        },
        Expr::Property { object, property } => Expr::Property {
            object: Box::new(clone_expr(object)),
            property: property.clone(),
        },
    }
}

fn clone_stmts(v: &Vec<Stmt>) -> (r: Vec<Stmt>)
    ensures
        stmts_view(r@) == stmts_view(v@),
    decreases v,
{
    let mut r: Vec<Stmt> = Vec::new();
    let mut i: usize = 0;
    while i < v.len()
        invariant
            0 <= i <= v@.len(),
            r@.len() == i,
            forall|j: int| 0 <= j < i ==> #[trigger] r@[j]@ == v@[j]@,
        decreases v@.len() - i,
    {
        assert(decreases_to!(v => v@[i as int]));
        r.push(clone_stmt(&v[i]));
        i = i + 1;
    }
    assert(stmts_view(r@) =~= stmts_view(v@));
    r
}

/// A copy of a statement, equal to it.
pub fn clone_stmt(s: &Stmt) -> (r: Stmt)
    ensures
        r@ == s@,
    decreases s,
{
    match s {
        Stmt::Let { name, value } => Stmt::Let { name: name.clone(), value: clone_expr(value) },
        Stmt::Assign { name, value } => Stmt::Assign {
            name: name.clone(),
            value: clone_expr(value),
        },
        Stmt::Return { value } => Stmt::Return { value: clone_expr(value) },
        Stmt::ExprStmt { expr } => Stmt::ExprStmt { expr: clone_expr(expr) },
        Stmt::Block { stmts } => {
            let b = clone_stmts(stmts);
            proof {
                lemma_view_block(b);
                lemma_view_block(*stmts);
            }
            Stmt::Block { stmts: b }
        },
        Stmt::Function { name, params, body } => {
            let n = name.clone();
            let p = clone_names(params);
            let b = Box::new(clone_stmt(body));
            proof {
                lemma_view_function(n, p, b);
                lemma_view_function(*name, *params, *body);
            }
            Stmt::Function { name: n, params: p, body: b }
        },
        Stmt::If { condition, then_branch, else_branch } => {
            let e = match else_branch {
                Some(b) => Some(Box::new(clone_stmt(b))),
                None => None,
            };
            Stmt::If {
                condition: clone_expr(condition),
                then_branch: Box::new(clone_stmt(then_branch)),
                else_branch: e,
            }
        },
        Stmt::While { condition, body } => Stmt::While {
            condition: clone_expr(condition),
            body: Box::new(clone_stmt(body)),
        },
        Stmt::ArrayAssign { array, index, value } => Stmt::ArrayAssign {
            array: clone_expr(array),
            index: clone_expr(index),
            value: clone_expr(value),
        },
        Stmt::ObjectAssign { object, property, value } => Stmt::ObjectAssign {
            object: clone_expr(object),
            property: property.clone(),
            value: clone_expr(value),
        },
    }
}

impl Clone for Expr {
    fn clone(&self) -> (r: Self)
        ensures
            r@ == self@,
    {
        clone_expr(self)
    }
}

impl Clone for Stmt {
    fn clone(&self) -> (r: Self)
        ensures
            r@ == self@,
    {
        clone_stmt(self)
    }
}

impl Clone for FunctionValue {
    fn clone(&self) -> (r: Self)
        ensures
            names_view(r.params@) == names_view(self.params@),
            (*r.body)@ == (*self.body)@,
    {
        FunctionValue { params: clone_names(&self.params), body: Box::new(clone_stmt(&self.body)) }
    }
}

impl Clone for Program {
    fn clone(&self) -> (r: Self)
        ensures
            r@ == self@,
    {
        Program { stmts: clone_stmts(&self.stmts) }
    }
}
} // verus!
