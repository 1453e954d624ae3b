use vstd::prelude::*;
pub use crate::ident::{Ident, prefix_ident};

verus! {

/// The binary operators of the language.
#[derive(PartialEq, Eq, Structural, Clone, Copy, Debug)]
pub enum LiaOp {
    Add,
    Sub,
    Mul,
    Div,
    Eq,
    Lt,
    Gt,
}

#[derive(Debug)]
pub enum LiaExpr {
    BinOp(LiaOp, Box<LiaExpr>, Box<LiaExpr>),
    Integer(i32),
    String(String),
    Bool(bool),
    Var(Ident),
    /// A path into the host namespace: the target of an extern call.
    RsVar(Vec<Ident>),
    Call(Box<LiaExpr>, Vec<LiaExpr>),
    Closure(Vec<Ident>, Vec<LiaStmt>),
    Object(Vec<(LiaExpr, LiaExpr)>),
    Index(Box<LiaExpr>, Box<LiaExpr>),
    Array(Vec<LiaExpr>),
    /// Raw host code carried through verbatim; it bypasses the language's
    /// scoping and typing.
    Quote(String),
}

#[derive(Debug)]
pub enum LiaStmt {
    Declare(Ident),
    Assign(LiaExpr, LiaExpr),
    Return(LiaExpr),
    Expr(LiaExpr),
    If(LiaExpr, Vec<LiaStmt>, Option<Vec<LiaStmt>>),
    While(LiaExpr, Vec<LiaStmt>),
    ForObj(Ident, LiaExpr, Vec<LiaStmt>),
}

#[derive(Debug)]
pub struct LiaFn {
    pub name: Ident,
    pub args: Vec<Ident>,
    pub body: Vec<LiaStmt>,
}

impl LiaExpr {
    /// A deep copy of the expression.
    pub(crate) fn duplicate(&self) -> (r: LiaExpr)
        decreases self,
    {
        match self {
            LiaExpr::BinOp(op, l, r) => LiaExpr::BinOp(
                *op,
                Box::new(l.duplicate()),
                Box::new(r.duplicate()),
            ),
            LiaExpr::Integer(n) => LiaExpr::Integer(*n),
            LiaExpr::String(s) => LiaExpr::String(s.clone()),
            LiaExpr::Bool(b) => LiaExpr::Bool(*b),
            LiaExpr::Var(id) => LiaExpr::Var(id.duplicate()),
            LiaExpr::RsVar(path) => LiaExpr::RsVar(duplicate_idents(path)),
            LiaExpr::Call(f, args) => LiaExpr::Call(Box::new(f.duplicate()), duplicate_exprs(args)),
            LiaExpr::Closure(ps, body) => LiaExpr::Closure(
                duplicate_idents(ps),
                duplicate_stmts(body),
            ),
            LiaExpr::Object(entries) => LiaExpr::Object(duplicate_entries(entries)),
            LiaExpr::Index(b, k) => LiaExpr::Index(
                Box::new(b.duplicate()),
                Box::new(k.duplicate()),
            ),
            LiaExpr::Array(items) => LiaExpr::Array(duplicate_exprs(items)),
            LiaExpr::Quote(q) => LiaExpr::Quote(q.clone()),
        }
    }
}

impl LiaStmt {
    /// A deep copy of the statement.
    pub(crate) fn duplicate(&self) -> (r: LiaStmt)
        decreases self,
    {
        match self {
            LiaStmt::Declare(id) => LiaStmt::Declare(id.duplicate()),
            LiaStmt::Assign(l, r) => LiaStmt::Assign(l.duplicate(), r.duplicate()),
            LiaStmt::Return(e) => LiaStmt::Return(e.duplicate()),
            LiaStmt::Expr(e) => LiaStmt::Expr(e.duplicate()),
            LiaStmt::If(g, t, el) => LiaStmt::If(
                g.duplicate(),
                duplicate_stmts(t),
                match el {
                    Some(v) => Some(duplicate_stmts(v)),
                    None => None,
                },
            ),
            LiaStmt::While(g, body) => LiaStmt::While(g.duplicate(), duplicate_stmts(body)),
            LiaStmt::ForObj(id, e, body) => LiaStmt::ForObj(
                id.duplicate(),
                e.duplicate(),
                duplicate_stmts(body),
            ),
        }
    }
}

pub(crate) fn duplicate_idents(v: &Vec<Ident>) -> (r: Vec<Ident>)
    ensures
        r@ == v@,
{
    let mut out: Vec<Ident> = Vec::new();
    let mut i: usize = 0;
    while i < v.len()
        invariant
            i <= v@.len(),
            out@ == v@.subrange(0, i as int),
        decreases v@.len() - i,
    {
        out.push(v[i].duplicate());
        i = i + 1;
        assert(out@ =~= v@.subrange(0, i as int));
    }
    assert(v@.subrange(0, v@.len() as int) =~= v@);
    out
}

pub(crate) fn duplicate_exprs(v: &Vec<LiaExpr>) -> (r: Vec<LiaExpr>)
    ensures
        r@.len() == v@.len(),
    decreases v,
{
    let mut out: Vec<LiaExpr> = Vec::new();
    let mut i: usize = 0;
    while i < v.len()
        invariant
            i <= v@.len(),
            out@.len() == i,
        decreases v@.len() - i,
    {
        assert(decreases_to!(v => v@[i as int]));
        out.push(v[i].duplicate());
        i = i + 1;
    }
    out
}

pub(crate) fn duplicate_entries(v: &Vec<(LiaExpr, LiaExpr)>) -> (r: Vec<(LiaExpr, LiaExpr)>)
    ensures
        r@.len() == v@.len(),
    decreases v,
{
    let mut out: Vec<(LiaExpr, LiaExpr)> = Vec::new();
    let mut i: usize = 0;
    while i < v.len()
        invariant
            i <= v@.len(),
            out@.len() == i,
        decreases v@.len() - i,
    {
        assert(decreases_to!(v => v@[i as int]));
        let (k, x) = &v[i];
        out.push((k.duplicate(), x.duplicate()));
        i = i + 1;
    }
    out
}

pub(crate) fn duplicate_stmts(v: &Vec<LiaStmt>) -> (r: Vec<LiaStmt>)
    ensures
        r@.len() == v@.len(),
    decreases v,
{
    let mut out: Vec<LiaStmt> = Vec::new();
    let mut i: usize = 0;
    while i < v.len()
        invariant
            i <= v@.len(),
            out@.len() == i,
        decreases v@.len() - i,
    {
        assert(decreases_to!(v => v@[i as int]));
        out.push(v[i].duplicate());
        i = i + 1;
    }
    out
}

} // verus!
