//! Data model shared by the lexer and the parser: tokens with their source
//! positions, the abstract syntax tree, and the parse error type, together
//! with the mathematical views that the contracts speak of.

use vstd::prelude::*;

verus! {

/// Identifier id assigned by the symbol table, in first-seen order from 0.
pub type Var = u32;

/// The spelling of a numeric literal, kept exactly as written in the source.
pub type Raw = String;

/// Binary operators: `+ - * / ** =`.
#[derive(Clone, Copy, PartialEq, Eq, Structural, Debug)]
pub enum OpSet {
    Add,
    Sub,
    Mul,
    Div,
    Pow,
    Assign,
}

/// Parentheses and braces: `( ) { }`.
#[derive(Clone, Copy, PartialEq, Eq, Structural, Debug)]
pub enum ParSet {
    LPar,
    RPar,
    LBkt,
    RBkt,
}

/// Keywords; only `func` today.
#[derive(Clone, Copy, PartialEq, Eq, Structural, Debug)]
pub enum KeySet {
    Func,
}

/// A classified lexical unit. `Null` is only the parser's "no previous
/// token" sentinel; the lexer never emits it.
#[derive(PartialEq, Debug)]
pub enum LexToken {
    Null,
    Op(OpSet),
    Par(ParSet),
    Key(KeySet),
    Var(Var),
    Raw(Raw),
    Endl,
}

/// Mathematical image of a token: the literal spelling becomes a `Seq<char>`.
pub enum TokS {
    Null,
    Op(OpSet),
    Par(ParSet),
    Key(KeySet),
    Var(Var),
    Raw(Seq<char>),
    Endl,
}

impl View for LexToken {
    type V = TokS;

    open spec fn view(&self) -> TokS {
        match self {
            LexToken::Null => TokS::Null,
            LexToken::Op(o) => TokS::Op(*o),
            LexToken::Par(p) => TokS::Par(*p),
            LexToken::Key(k) => TokS::Key(*k),
            LexToken::Var(v) => TokS::Var(*v),
            LexToken::Raw(s) => TokS::Raw(s@),
            LexToken::Endl => TokS::Endl,
        }
    }
}

/// A token with its source position: `(line number, word number)`, both
/// 1-based; a line's terminating `Endl` carries word number 0.
pub struct LexResult {
    pub token: LexToken,
    pub info: (usize, usize),
}

/// Mathematical image of a positioned token.
pub struct LexResultS {
    pub token: TokS,
    pub info: (usize, usize),
}

impl View for LexResult {
    type V = LexResultS;

    open spec fn view(&self) -> LexResultS {
        LexResultS { token: self.token@, info: self.info }
    }
}

/// The view of a token list.
pub open spec fn toks_view(s: Seq<LexResult>) -> Seq<LexResultS> {
    s.map_values(|t: LexResult| t@)
}

impl LexResult {
    /// Pairs a token with its source position.
    pub fn new(token: LexToken, ln: usize, wn: usize) -> (r: LexResult)
        ensures
            r.token == token,
            r.info == (ln, wn),
    {
        LexResult { token, info: (ln, wn) }
    }
}

/// An expression of the abstract syntax tree. Each node exclusively owns its
/// children; the tree is strictly finite and acyclic.
#[derive(PartialEq, Debug)]
pub enum Expr {
    Add(BinOp),
    Sub(BinOp),
    Mul(BinOp),
    Div(BinOp),
    Pow(BinOp),
    Assign(BinOp),
    Fun(FunExpr),
    Idnt(Idnt),
}

/// The two operands of a binary operator node.
#[derive(PartialEq, Debug)]
pub struct BinOp {
    pub lhs: Box<Expr>,
    pub rhs: Box<Expr>,
}

/// A leaf: a variable reference or a numeric literal's spelling.
#[derive(PartialEq, Debug)]
pub enum Idnt {
    Var(Var),
    Raw(Raw),
}

/// A function call: the callee's id and its argument expressions.
#[derive(PartialEq, Debug)]
pub struct FunExpr {
    pub id: Var,
    pub arg: Vec<Box<Expr>>,
}

/// A statement: a line of expressions, or a function declaration.
#[derive(PartialEq, Debug)]
pub enum Stmt {
    Fun(FunStmt),
    Raw(Vec<Box<Expr>>),
}

/// A function declaration: name id, parameter ids, body expressions.
#[derive(PartialEq, Debug)]
pub struct FunStmt {
    pub id: Var,
    pub param: Vec<Var>,
    pub expr: Vec<Box<Expr>>,
}

impl FunStmt {
    /// An empty declaration, to be filled in as its tokens arrive.
    pub fn new() -> (r: FunStmt)
        ensures
            r.id == 0,
            r.param@ == Seq::<Var>::empty(),
            r.expr@ == Seq::<Box<Expr>>::empty(),
    {
        FunStmt { id: 0, param: Vec::new(), expr: Vec::new() }
    }
}

/// Mathematical image of an expression.
pub enum ExprS {
    Add(Box<ExprS>, Box<ExprS>),
    Sub(Box<ExprS>, Box<ExprS>),
    Mul(Box<ExprS>, Box<ExprS>),
    Div(Box<ExprS>, Box<ExprS>),
    Pow(Box<ExprS>, Box<ExprS>),
    Assign(Box<ExprS>, Box<ExprS>),
    Fun(Var, Seq<ExprS>),
    Var(Var),
    Raw(Seq<char>),
}

/// Mathematical image of a statement.
pub enum StmtS {
    Fun { id: Var, param: Seq<Var>, expr: Seq<ExprS> },
    Raw(Seq<ExprS>),
}

/// The view of an expression node.
pub open spec fn expr_view(e: Expr) -> ExprS
    decreases e,
{
    match e {
        Expr::Add(b) => ExprS::Add(Box::new(expr_view(*b.lhs)), Box::new(expr_view(*b.rhs))),
        Expr::Sub(b) => ExprS::Sub(Box::new(expr_view(*b.lhs)), Box::new(expr_view(*b.rhs))),
        Expr::Mul(b) => ExprS::Mul(Box::new(expr_view(*b.lhs)), Box::new(expr_view(*b.rhs))),
        Expr::Div(b) => ExprS::Div(Box::new(expr_view(*b.lhs)), Box::new(expr_view(*b.rhs))),
        Expr::Pow(b) => ExprS::Pow(Box::new(expr_view(*b.lhs)), Box::new(expr_view(*b.rhs))),
        Expr::Assign(b) => ExprS::Assign(
            Box::new(expr_view(*b.lhs)),
            Box::new(expr_view(*b.rhs)),
        ),
        Expr::Fun(f) => ExprS::Fun(f.id, exprs_view(f.arg@)),
        Expr::Idnt(Idnt::Var(v)) => ExprS::Var(v),
        Expr::Idnt(Idnt::Raw(s)) => ExprS::Raw(s@),
    }
}

/// The view of a list of owned expressions.
pub open spec fn exprs_view(s: Seq<Box<Expr>>) -> Seq<ExprS>
    decreases s,
{
    if s.len() == 0 {
        Seq::empty()
    } else {
        seq![expr_view(*s[0])] + exprs_view(s.drop_first())
    }
}

/// The view of a statement.
pub open spec fn stmt_view(s: Stmt) -> StmtS {
    match s {
        Stmt::Fun(f) => StmtS::Fun { id: f.id, param: f.param@, expr: exprs_view(f.expr@) },
        Stmt::Raw(es) => StmtS::Raw(exprs_view(es@)),
    }
}

/// The view of a program: its statements in source order.
pub open spec fn stmts_view(s: Seq<Stmt>) -> Seq<StmtS> {
    s.map_values(|st: Stmt| stmt_view(st))
}

/// A parse error: a static message and the offending token's
/// `(line number, word number)` position.
pub struct AstParseError {
    msg: &'static str,
    info: (usize, usize),
}

/// Mathematical image of a parse error.
pub struct ErrS {
    pub msg: Seq<char>,
    pub info: (usize, usize),
}

impl View for AstParseError {
    type V = ErrS;

    closed spec fn view(&self) -> ErrS {
        ErrS { msg: self.msg@, info: self.info }
    }
}

impl AstParseError {
    /// Builds an error from its message and position.
    pub fn new(msg: &'static str, info: (usize, usize)) -> (r: AstParseError)
        ensures
            r@.msg == msg@,
            r@.info == info,
    {
        AstParseError { msg, info }
    }

    /// The `(line number, word number)` position of the offending token.
    pub fn position(&self) -> (r: (usize, usize))
        ensures
            r == self@.info,
    {
        self.info
    }

    /// The error message.
    pub fn message(&self) -> (r: &'static str)
        ensures
            r@ == self@.msg,
    {
        self.msg
    }
}

} // verus!
