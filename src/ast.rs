//! The syntax tree of a program and its mathematical model.
use vstd::prelude::*;

verus! {

broadcast use vstd::std_specs::vec::group_vec_axioms, vstd::seq::group_seq_axioms;

/// A binary or unary operator.
#[derive(Debug, Clone, Copy, PartialEq, Eq, Structural)]
pub enum Op {
    Add,
    Sub,
    Mul,
    Div,
    Eq,
    NotEq,
    Gt,
    Gte,
    Lt,
    Lte,
}

/// An expression tree.
#[derive(Debug, PartialEq)]
pub enum Expr {
    Ident(String),
    Num(i32),
    BinOp(Box<Expr>, Op, Box<Expr>),
    UnaryOp(Op, Box<Expr>),
}

/// A statement; bodies are sequences of statements.
#[derive(Debug)]
pub enum Stmt {
    Let(String, Expr),
    Exit(Expr),
    While(Expr, Vec<Stmt>),
    If(Expr, Vec<Stmt>, Vec<(Expr, Vec<Stmt>)>, Option<Vec<Stmt>>),
}

/// The model of an expression: names are sequences of characters.
pub enum ExprModel {
    Ident(Seq<char>),
    Num(i32),
    BinOp(Box<ExprModel>, Op, Box<ExprModel>),
    UnaryOp(Op, Box<ExprModel>),
}

/// The model of a statement.
pub enum StmtModel {
    Let(Seq<char>, ExprModel),
    Exit(ExprModel),
    While(ExprModel, Seq<StmtModel>),
    If(ExprModel, Seq<StmtModel>, Seq<(ExprModel, Seq<StmtModel>)>, Option<Seq<StmtModel>>),
}

/// The model of an expression.
pub open spec fn expr_model(e: Expr) -> ExprModel
    decreases e,
{
    match e {
        Expr::Ident(s) => ExprModel::Ident(s@),
        Expr::Num(n) => ExprModel::Num(n),
        Expr::BinOp(l, op, r) => ExprModel::BinOp(Box::new(expr_model(*l)), op, Box::new(expr_model(*r))),
        Expr::UnaryOp(op, x) => ExprModel::UnaryOp(op, Box::new(expr_model(*x))),
    }
}

impl View for Expr {
    type V = ExprModel;

    open spec fn view(&self) -> ExprModel {
        expr_model(*self)
    }
}

/// The model of a statement.
pub open spec fn stmt_model(s: Stmt) -> StmtModel
    decreases s,
{
    match s {
        Stmt::Let(x, e) => StmtModel::Let(x@, e@),
        Stmt::Exit(e) => StmtModel::Exit(e@),
        Stmt::While(c, b) => StmtModel::While(c@, stmts_model(b@)),
        Stmt::If(c, t, es, eb) => StmtModel::If(
            c@,
            stmts_model(t@),
            elifs_model(es@),
            match eb {
                Some(b) => Some(stmts_model(b@)),
                None => None,
            },
        ),
    }
}

/// The models of a sequence of statements.
pub open spec fn stmts_model(ss: Seq<Stmt>) -> Seq<StmtModel>
    decreases ss,
{
    if ss.len() == 0 {
        seq![]
    } else {
        stmts_model(ss.drop_last()).push(stmt_model(ss.last()))
    }
}

/// The models of a sequence of `elif` branches.
pub open spec fn elifs_model(es: Seq<(Expr, Vec<Stmt>)>) -> Seq<(ExprModel, Seq<StmtModel>)>
    decreases es,
{
    if es.len() == 0 {
        seq![]
    } else {
        elifs_model(es.drop_last()).push((es.last().0@, stmts_model(es.last().1@)))
    }
}

/// The model of an optional `else` block.
pub open spec fn else_model(eb: Option<Vec<Stmt>>) -> Option<Seq<StmtModel>> {
    match eb {
        Some(b) => Some(stmts_model(b@)),
        None => None,
    }
}

impl View for Stmt {
    type V = StmtModel;

    open spec fn view(&self) -> StmtModel {
        stmt_model(*self)
    }
}

pub proof fn lemma_stmts_model_push(ss: Seq<Stmt>, s: Stmt)
    ensures
        stmts_model(ss.push(s)) == stmts_model(ss).push(s@),
{
    assert(ss.push(s).drop_last() =~= ss);
}

pub proof fn lemma_elifs_model_push(es: Seq<(Expr, Vec<Stmt>)>, e: (Expr, Vec<Stmt>))
    ensures
        elifs_model(es.push(e)) == elifs_model(es).push((e.0@, stmts_model(e.1@))),
{
    assert(es.push(e).drop_last() =~= es);
}

pub proof fn lemma_stmts_model_index(ss: Seq<Stmt>)
    ensures
        stmts_model(ss).len() == ss.len(),
        forall|i: int| 0 <= i < ss.len() ==> #[trigger] stmts_model(ss)[i] == ss[i]@,
    decreases ss.len(),
{
    if ss.len() > 0 {
        lemma_stmts_model_index(ss.drop_last());
    }
}

pub proof fn lemma_elifs_model_index(es: Seq<(Expr, Vec<Stmt>)>)
    ensures
        elifs_model(es).len() == es.len(),
        forall|i: int|
            0 <= i < es.len() ==> #[trigger] elifs_model(es)[i] == (es[i].0@, stmts_model(
                es[i].1@,
            )),
    decreases es.len(),
{
    if es.len() > 0 {
        elifs_model(es.drop_last());
        lemma_elifs_model_index(es.drop_last());
    }
}

} // verus!
