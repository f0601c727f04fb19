//! The parser: validates the token stream with an explicit finite-state
//! machine, slices it into statements, and builds each expression with
//! precedence climbing. Assignment binds loosest, then `+ -`, then `* /`,
//! then `**`; `**` and `=` associate to the right, the rest to the left.
//! A parenthesized span is parsed as a self-contained expression; an
//! identifier directly followed by `(` is a function call whose parentheses
//! hold at most one argument expression under the current grammar.

use vstd::prelude::*;

use crate::ast::AstParseError;
use crate::ast::BinOp;
use crate::ast::ErrS;
use crate::ast::Expr;
use crate::ast::ExprS;
use crate::ast::FunExpr;
use crate::ast::FunStmt;
use crate::ast::Idnt;
use crate::ast::KeySet;
use crate::ast::LexResult;
use crate::ast::LexResultS;
use crate::ast::LexToken;
use crate::ast::OpSet;
use crate::ast::ParSet;
use crate::ast::Stmt;
use crate::ast::StmtS;
use crate::ast::TokS;
use crate::ast::Var;
use crate::ast::expr_view;
use crate::ast::exprs_view;
use crate::ast::stmts_view;
use crate::ast::toks_view;
use crate::lexer::Lexer;
use crate::lexer::op_id;
use crate::lexer::spec_lex;

verus! {

/// The precedence of an operator: assignment lowest, power highest.
pub open spec fn prec(o: OpSet) -> int {
    match o {
        OpSet::Assign => 1,
        OpSet::Add => 2,
        OpSet::Sub => 2,
        OpSet::Mul => 3,
        OpSet::Div => 3,
        OpSet::Pow => 4,
    }
}

/// Operators that associate to the right: power and assignment.
pub open spec fn right_assoc(o: OpSet) -> bool {
    o == OpSet::Pow || o == OpSet::Assign
}

/// The tree node an operator builds.
pub open spec fn binop_node(o: OpSet, l: ExprS, r: ExprS) -> ExprS {
    match o {
        OpSet::Add => ExprS::Add(Box::new(l), Box::new(r)),
        OpSet::Sub => ExprS::Sub(Box::new(l), Box::new(r)),
        OpSet::Mul => ExprS::Mul(Box::new(l), Box::new(r)),
        OpSet::Div => ExprS::Div(Box::new(l), Box::new(r)),
        OpSet::Pow => ExprS::Pow(Box::new(l), Box::new(r)),
        OpSet::Assign => ExprS::Assign(Box::new(l), Box::new(r)),
    }
}

/// The position of the matching right parenthesis at nesting depth zero,
/// scanning `[i, rb)`.
pub open spec fn find_close(toks: Seq<LexResultS>, i: int, rb: int, depth: int) -> Option<int>
    decreases rb - i,
{
    if i >= rb {
        None
    } else {
        match toks[i].token {
            TokS::Par(ParSet::RPar) => if depth == 0 {
                Some(i)
            } else {
                find_close(toks, i + 1, rb, depth - 1)
            },
            TokS::Par(ParSet::LPar) => find_close(toks, i + 1, rb, depth + 1),
            _ => find_close(toks, i + 1, rb, depth),
        }
    }
}

/// An error at the position of token `i`, or of the last token when `i` is
/// past the end.
pub open spec fn err_at(toks: Seq<LexResultS>, i: int, msg: Seq<char>) -> ErrS {
    ErrS {
        msg,
        info: if 0 <= i < toks.len() {
            toks[i].info
        } else if toks.len() > 0 {
            toks[toks.len() - 1].info
        } else {
            (0, 0)
        },
    }
}

/// A position clamped into `[lo, hi]`; parse positions always lie there, and
/// the clamp makes the recursion measures self-evident.
pub open spec fn clamp_pos(p: int, lo: int, hi: int) -> int {
    if p < lo {
        lo
    } else if p > hi {
        hi
    } else {
        p
    }
}

/// One operand: a literal, a variable, a call, or a parenthesized
/// subexpression. Returns the node and the position after it.
pub open spec fn spec_parse_primary(toks: Seq<LexResultS>, pos: int, rb: int) -> Result<
    (ExprS, int),
    ErrS,
>
    decreases rb - pos, 0int,
{
    if pos >= rb {
        Err(err_at(toks, pos, "expected an expression"@))
    } else {
        match toks[pos].token {
            TokS::Raw(s) => Ok((ExprS::Raw(s), pos + 1)),
            TokS::Var(v) => if pos + 1 < rb && toks[pos + 1].token == TokS::Par(ParSet::LPar) {
                match find_close(toks, pos + 2, rb, 0) {
                    None => Err(err_at(toks, pos + 1, "unbalanced parentheses"@)),
                    Some(c0) => {
                        let c = clamp_pos(c0, pos + 2, rb - 1);
                        if c == pos + 2 {
                            Ok((ExprS::Fun(v, Seq::empty()), c + 1))
                        } else {
                            match spec_parse_expr_span(toks, pos + 2, c) {
                                Err(e) => Err(e),
                                Ok(arg) => Ok((ExprS::Fun(v, seq![arg]), c + 1)),
                            }
                        }
                    },
                }
            } else {
                Ok((ExprS::Var(v), pos + 1))
            },
            TokS::Par(ParSet::LPar) => match find_close(toks, pos + 1, rb, 0) {
                None => Err(err_at(toks, pos, "unbalanced parentheses"@)),
                Some(c0) => {
                    let c = clamp_pos(c0, pos + 1, rb - 1);
                    if c == pos + 1 {
                        Err(err_at(toks, pos, "empty parentheses"@))
                    } else {
                        match spec_parse_expr_span(toks, pos + 1, c) {
                            Err(e) => Err(e),
                            Ok(inner) => Ok((inner, c + 1)),
                        }
                    }
                },
            },
            _ => Err(err_at(toks, pos, "expected an expression"@)),
        }
    }
}

/// Folds operators of at least the given precedence onto `lhs`, climbing:
/// a left-associative operator parses its right operand with a floor one
/// above its own precedence, a right-associative one with its own.
pub open spec fn spec_parse_ops(
    toks: Seq<LexResultS>,
    lhs: ExprS,
    pos: int,
    rb: int,
    minp: int,
) -> Result<(ExprS, int), ErrS>
    decreases rb - pos, 2int,
{
    if pos >= rb {
        Ok((lhs, pos))
    } else {
        match toks[pos].token {
            TokS::Op(o) => if prec(o) >= minp {
                let sub_min = if right_assoc(o) {
                    prec(o)
                } else {
                    prec(o) + 1
                };
                match spec_parse_binop(toks, pos + 1, rb, sub_min) {
                    Err(e) => Err(e),
                    Ok((rhs, p2)) => spec_parse_ops(
                        toks,
                        binop_node(o, lhs, rhs),
                        clamp_pos(p2, pos + 1, rb),
                        rb,
                        minp,
                    ),
                }
            } else {
                Ok((lhs, pos))
            },
            _ => Ok((lhs, pos)),
        }
    }
}

/// An operand followed by its operator chain.
pub open spec fn spec_parse_binop(toks: Seq<LexResultS>, pos: int, rb: int, minp: int) -> Result<
    (ExprS, int),
    ErrS,
>
    decreases rb - pos, 1int,
{
    if pos >= rb {
        Err(err_at(toks, pos, "expected an expression"@))
    } else {
        match spec_parse_primary(toks, pos, rb) {
            Err(e) => Err(e),
            Ok((lhs, p)) => spec_parse_ops(toks, lhs, clamp_pos(p, pos + 1, rb), rb, minp),
        }
    }
}

/// A complete expression filling the whole span `[lb, rb)`.
pub open spec fn spec_parse_expr_span(toks: Seq<LexResultS>, lb: int, rb: int) -> Result<
    ExprS,
    ErrS,
>
    decreases rb - lb, 3int,
{
    match spec_parse_binop(toks, lb, rb, 1) {
        Err(e) => Err(e),
        Ok((e, p)) => if p == rb {
            Ok(e)
        } else {
            Err(err_at(toks, p, "unexpected token in expression"@))
        },
    }
}

/// The statement machine's states. The expression states remember the kind
/// of the previous token and whether the expression sits inside a function
/// body; the declaration states walk `func NAME ( params ) { body }`, where
/// `FunBodyStart` is the step right after `{` (only a line end or `}` may
/// follow there: a body's line must start fresh) and `FunBody` is a line
/// start inside the body.
#[derive(Clone, Copy, PartialEq, Eq, Structural, Debug)]
pub enum ParseState {
    Null,
    FunName,
    FunHead,
    FunParams,
    FunShell,
    FunBodyStart,
    FunBody,
    EOp { body: bool },
    ELPar { body: bool },
    ERPar { body: bool },
    EVar { body: bool },
    ERaw { body: bool },
}

/// The statement machine's whole configuration: state, the start of the open
/// expression's token span, and the statements built so far.
pub struct PSt {
    pub st: ParseState,
    pub lb: int,
    pub stmts: Seq<StmtS>,
}

/// Appends an expression to the last statement: to its expression list for a
/// plain statement, to the body for a function declaration. With no open
/// statement (which the machine never produces) nothing changes.
pub open spec fn append_expr(stmts: Seq<StmtS>, e: ExprS) -> Seq<StmtS> {
    if stmts.len() == 0 {
        stmts
    } else {
        let newlast = match stmts.last() {
            StmtS::Raw(es) => StmtS::Raw(es.push(e)),
            StmtS::Fun { id, param, expr } => StmtS::Fun { id, param, expr: expr.push(e) },
        };
        stmts.update(stmts.len() - 1, newlast)
    }
}

/// Records the declared function's name on the last statement.
pub open spec fn set_fun_name(stmts: Seq<StmtS>, v: Var) -> Seq<StmtS> {
    if stmts.len() == 0 {
        stmts
    } else {
        match stmts.last() {
            StmtS::Fun { id, param, expr } => stmts.update(
                stmts.len() - 1,
                StmtS::Fun { id: v, param, expr },
            ),
            StmtS::Raw(es) => stmts,
        }
    }
}

/// Appends a parameter to the declared function on the last statement.
pub open spec fn push_param(stmts: Seq<StmtS>, v: Var) -> Seq<StmtS> {
    if stmts.len() == 0 {
        stmts
    } else {
        match stmts.last() {
            StmtS::Fun { id, param, expr } => stmts.update(
                stmts.len() - 1,
                StmtS::Fun { id, param: param.push(v), expr },
            ),
            StmtS::Raw(es) => stmts,
        }
    }
}

/// Closes the open expression span `[lb, i)` and appends its tree to the
/// last statement.
pub open spec fn close_expr(stmts: Seq<StmtS>, lb: int, toks: Seq<LexResultS>, i: int) -> Result<
    Seq<StmtS>,
    ErrS,
> {
    match spec_parse_expr_span(toks, lb, i) {
        Err(e) => Err(e),
        Ok(e) => Ok(append_expr(stmts, e)),
    }
}

/// One step of the statement machine on token `i`: the legal successors of
/// each state, the statement and declaration bookkeeping, and the exact
/// error otherwise. Within an expression, only parentheses continue after an
/// identifier: a brace there has no meaning the rest of the grammar could
/// complete (a brace may follow nothing but a line end, and nothing may
/// follow a closing brace), so it is rejected at once.
pub open spec fn spec_step(p: PSt, toks: Seq<LexResultS>, i: int) -> Result<PSt, ErrS> {
    let t = toks[i].token;
    let info = toks[i].info;
    match p.st {
        ParseState::Null => match t {
            TokS::Par(ParSet::LPar) => Ok(
                PSt {
                    st: ParseState::ELPar { body: false },
                    lb: i,
                    stmts: p.stmts.push(StmtS::Raw(Seq::empty())),
                },
            ),
            TokS::Var(v) => Ok(
                PSt {
                    st: ParseState::EVar { body: false },
                    lb: i,
                    stmts: p.stmts.push(StmtS::Raw(Seq::empty())),
                },
            ),
            TokS::Raw(s) => Ok(
                PSt {
                    st: ParseState::ERaw { body: false },
                    lb: i,
                    stmts: p.stmts.push(StmtS::Raw(Seq::empty())),
                },
            ),
            TokS::Key(KeySet::Func) => Ok(
                PSt {
                    st: ParseState::FunName,
                    lb: p.lb,
                    stmts: p.stmts.push(
                        StmtS::Fun { id: 0, param: Seq::empty(), expr: Seq::empty() },
                    ),
                },
            ),
            TokS::Endl => Ok(p),
            TokS::Par(ParSet::RBkt) => Ok(p),
            _ => Err(ErrS { msg: "Expected left paren, variable, literal or keyword"@, info }),
        },
        ParseState::EOp { body } => match t {
            TokS::Par(ParSet::LPar) => Ok(PSt { st: ParseState::ELPar { body }, ..p }),
            TokS::Var(v) => Ok(PSt { st: ParseState::EVar { body }, ..p }),
            TokS::Raw(s) => Ok(PSt { st: ParseState::ERaw { body }, ..p }),
            _ => Err(ErrS { msg: "Expected left paren, variable or literal"@, info }),
        },
        ParseState::ELPar { body } => match t {
            TokS::Par(ParSet::RPar) => Ok(PSt { st: ParseState::ERPar { body }, ..p }),
            TokS::Var(v) => Ok(PSt { st: ParseState::EVar { body }, ..p }),
            TokS::Raw(s) => Ok(PSt { st: ParseState::ERaw { body }, ..p }),
            _ => Err(ErrS { msg: "Expected right paren, variable or literal"@, info }),
        },
        ParseState::ERPar { body } => match t {
            TokS::Op(o) => Ok(PSt { st: ParseState::EOp { body }, ..p }),
            TokS::Var(v) => Ok(PSt { st: ParseState::EVar { body }, ..p }),
            TokS::Raw(s) => Ok(PSt { st: ParseState::ERaw { body }, ..p }),
            TokS::Endl => match close_expr(p.stmts, p.lb, toks, i) {
                Err(e) => Err(e),
                Ok(sts) => Ok(
                    PSt {
                        st: if body {
                            ParseState::FunBody
                        } else {
                            ParseState::Null
                        },
                        lb: p.lb,
                        stmts: sts,
                    },
                ),
            },
            _ => Err(ErrS { msg: "Expected operator, variable or literal"@, info }),
        },
        ParseState::EVar { body } => match t {
            TokS::Op(o) => Ok(PSt { st: ParseState::EOp { body }, ..p }),
            TokS::Par(ParSet::LPar) => Ok(PSt { st: ParseState::ELPar { body }, ..p }),
            TokS::Par(ParSet::RPar) => Ok(PSt { st: ParseState::ERPar { body }, ..p }),
            TokS::Endl => match close_expr(p.stmts, p.lb, toks, i) {
                Err(e) => Err(e),
                Ok(sts) => Ok(
                    PSt {
                        st: if body {
                            ParseState::FunBody
                        } else {
                            ParseState::Null
                        },
                        lb: p.lb,
                        stmts: sts,
                    },
                ),
            },
            _ => Err(ErrS { msg: "Expected operator, paren or end of line"@, info }),
        },
        ParseState::ERaw { body } => match t {
            TokS::Op(o) => Ok(PSt { st: ParseState::EOp { body }, ..p }),
            TokS::Par(ParSet::RPar) => Ok(PSt { st: ParseState::ERPar { body }, ..p }),
            TokS::Endl => match close_expr(p.stmts, p.lb, toks, i) {
                Err(e) => Err(e),
                Ok(sts) => Ok(
                    PSt {
                        st: if body {
                            ParseState::FunBody
                        } else {
                            ParseState::Null
                        },
                        lb: p.lb,
                        stmts: sts,
                    },
                ),
            },
            _ => Err(ErrS { msg: "Expected operator or right paren"@, info }),
        },
        ParseState::FunName => match t {
            TokS::Var(v) => Ok(
                PSt { st: ParseState::FunHead, lb: p.lb, stmts: set_fun_name(p.stmts, v) },
            ),
            _ => Err(ErrS { msg: "Expected function name"@, info }),
        },
        ParseState::FunHead => match t {
            TokS::Par(ParSet::LPar) => Ok(PSt { st: ParseState::FunParams, ..p }),
            _ => Err(ErrS { msg: "Expected left paren after function name"@, info }),
        },
        ParseState::FunParams => match t {
            TokS::Var(v) => Ok(
                PSt { st: ParseState::FunParams, lb: p.lb, stmts: push_param(p.stmts, v) },
            ),
            TokS::Par(ParSet::RPar) => Ok(PSt { st: ParseState::FunShell, ..p }),
            _ => Err(ErrS { msg: "Expected parameter name or right paren"@, info }),
        },
        ParseState::FunShell => match t {
            TokS::Endl => Ok(p),
            TokS::Par(ParSet::LBkt) => Ok(PSt { st: ParseState::FunBodyStart, ..p }),
            _ => Err(ErrS { msg: "Expected left bracket"@, info }),
        },
        ParseState::FunBodyStart => match t {
            TokS::Endl => Ok(PSt { st: ParseState::FunBody, ..p }),
            TokS::Par(ParSet::RBkt) => Ok(PSt { st: ParseState::Null, ..p }),
            _ => Err(ErrS { msg: "Expected new line or right bracket"@, info }),
        },
        ParseState::FunBody => match t {
            TokS::Endl => Ok(p),
            TokS::Par(ParSet::RBkt) => Ok(PSt { st: ParseState::Null, ..p }),
            TokS::Par(ParSet::LPar) => Ok(PSt { st: ParseState::ELPar { body: true }, lb: i, ..p }),
            TokS::Var(v) => Ok(PSt { st: ParseState::EVar { body: true }, lb: i, ..p }),
            TokS::Raw(s) => Ok(PSt { st: ParseState::ERaw { body: true }, lb: i, ..p }),
            _ => Err(ErrS { msg: "Expected expression, right bracket or end of line"@, info }),
        },
    }
}

/// The machine run over the tokens from `i` on: the statements at the end,
/// or the first illegal transition's error.
pub open spec fn spec_parse_toks(toks: Seq<LexResultS>, i: int, p: PSt) -> Result<
    Seq<StmtS>,
    ErrS,
>
    decreases toks.len() - i,
{
    if i < 0 || i >= toks.len() {
        Ok(p.stmts)
    } else {
        match spec_step(p, toks, i) {
            Err(e) => Err(e),
            Ok(p2) => spec_parse_toks(toks, i + 1, p2),
        }
    }
}

/// The machine's starting configuration.
pub open spec fn init_pst() -> PSt {
    PSt { st: ParseState::Null, lb: 0, stmts: Seq::empty() }
}

/// The whole pipeline on a source text: a fresh interning state, the lexer,
/// then the statement machine.
pub open spec fn spec_parse(code: Seq<char>) -> Result<Seq<StmtS>, ErrS> {
    match spec_lex(code, Map::empty(), 0) {
        Err(pos) => Err(ErrS { msg: "too many distinct identifiers"@, info: pos }),
        Ok((toks, vm, c)) => spec_parse_toks(toks, 0, init_pst()),
    }
}

/// Appending an expression to an owned list appends its view.
proof fn lemma_exprs_view_push(s: Seq<Box<Expr>>, e: Box<Expr>)
    ensures
        exprs_view(s.push(e)) == exprs_view(s).push(expr_view(*e)),
    decreases s.len(),
{
    if s.len() == 0 {
        assert(s.push(e)[0] == e);
        assert(s.push(e).drop_first() =~= Seq::<Box<Expr>>::empty());
        assert(exprs_view(Seq::<Box<Expr>>::empty()) == Seq::<ExprS>::empty());
        assert(exprs_view(s.push(e)) == seq![expr_view(*e)] + Seq::<ExprS>::empty());
        assert(seq![expr_view(*e)] + Seq::<ExprS>::empty() =~= exprs_view(s).push(expr_view(*e)));
    } else {
        assert(s.push(e)[0] == s[0]);
        assert(s.push(e).drop_first() =~= s.drop_first().push(e));
        lemma_exprs_view_push(s.drop_first(), e);
        assert(exprs_view(s.push(e)) == seq![expr_view(*s[0])] + exprs_view(s.drop_first()).push(
            expr_view(*e),
        ));
        assert(seq![expr_view(*s[0])] + exprs_view(s.drop_first()).push(expr_view(*e)) =~= (seq![
            expr_view(*s[0]),
        ] + exprs_view(s.drop_first())).push(expr_view(*e)));
    }
}

/// The numeric id of an operator, executably.
fn op_id_x(o: OpSet) -> (r: u8)
    ensures
        r == op_id(o),
{
    match o {
        OpSet::Add => 0,
        OpSet::Sub => 1,
        OpSet::Mul => 2,
        OpSet::Div => 3,
        OpSet::Pow => 4,
        OpSet::Assign => 5,
    }
}

/// Right associativity, executably.
fn right_assoc_x(o: OpSet) -> (r: bool)
    ensures
        r == right_assoc(o),
{
    match o {
        OpSet::Pow => true,
        OpSet::Assign => true,
        _ => false,
    }
}

/// Builds the tree node of an operator, executably.
fn binop_node_x(o: OpSet, l: Box<Expr>, r: Box<Expr>) -> (e: Box<Expr>)
    ensures
        expr_view(*e) == binop_node(o, expr_view(*l), expr_view(*r)),
{
    let node = match o {
        OpSet::Add => Expr::Add(BinOp { lhs: l, rhs: r }),
        OpSet::Sub => Expr::Sub(BinOp { lhs: l, rhs: r }),
        OpSet::Mul => Expr::Mul(BinOp { lhs: l, rhs: r }),
        OpSet::Div => Expr::Div(BinOp { lhs: l, rhs: r }),
        OpSet::Pow => Expr::Pow(BinOp { lhs: l, rhs: r }),
        OpSet::Assign => Expr::Assign(BinOp { lhs: l, rhs: r }),
    };
    Box::new(node)
}

/// An error at the position of token `i`, executably.
fn err_at_x(toks: &Vec<LexResult>, i: usize, msg: &'static str) -> (r: AstParseError)
    ensures
        r@ == err_at(toks_view(toks@), i as int, msg@),
{
    let n = toks.len();
    let info: (usize, usize) = if i < n {
        toks[i].info
    } else if n > 0 {
        toks[n - 1].info
    } else {
        (0, 0)
    };
    AstParseError::new(msg, info)
}

/// The position of the matching right parenthesis, executably.
fn find_close_x(toks: &Vec<LexResult>, i: usize, rb: usize, depth: usize) -> (r: Option<usize>)
    requires
        rb <= toks@.len(),
        depth <= i,
    ensures
        match find_close(toks_view(toks@), i as int, rb as int, depth as int) {
            Some(c) => r matches Some(cx) && cx as int == c && i <= cx < rb,
            None => r is None,
        },
    decreases rb - i,
{
    if i >= rb {
        return None;
    }
    match &toks[i].token {
        LexToken::Par(ParSet::RPar) => {
            if depth == 0 {
                Some(i)
            } else {
                find_close_x(toks, i + 1, rb, depth - 1)
            }
        },
        LexToken::Par(ParSet::LPar) => find_close_x(toks, i + 1, rb, depth + 1),
        _ => find_close_x(toks, i + 1, rb, depth),
    }
}

/// The parser: the lexer it drives and the operator precedence table,
/// indexed by operator id.
pub struct AstParser {
    /// The lexer; replaced by a fresh one at the start of every parse, so
    /// that identifier ids never leak between parses.
    pub lexer: Lexer,
    /// The precedence of the operator with each id; 0 where no operator has
    /// the id.
    pub op_prec: Vec<u8>,
}

/// The precedence stored under each operator id.
pub open spec fn spec_prec_entry(j: int) -> u8 {
    if j == 0 || j == 1 {
        2
    } else if j == 2 || j == 3 {
        3
    } else if j == 4 {
        4
    } else if j == 5 {
        1
    } else {
        0
    }
}

impl AstParser {
    /// A sound parser: a sound lexer and the precedence table as documented.
    pub open spec fn wf(self) -> bool {
        &&& self.lexer.wf()
        &&& self.op_prec@.len() == 256
        &&& forall|o: OpSet| #[trigger] self.op_prec@[op_id(o) as int] == prec(o) as u8
    }

    /// A fresh parser: an empty symbol table and the fixed precedence table,
    /// with 0 under every id that no operator has.
    pub fn new() -> (r: AstParser)
        ensures
            r.wf(),
            r.op_prec@.len() == 256,
            forall|j: int| 0 <= j < 256 ==> r.op_prec@[j] == spec_prec_entry(j),
            r.lexer.var_map@ == Map::<Seq<char>, Var>::empty(),
            r.lexer.vid_ceil == 0,
    {
        let lexer = Lexer::new();
        let mut op_prec: Vec<u8> = Vec::new();
        let mut i: usize = 0;
        while i < 256
            invariant
                i <= 256,
                op_prec@.len() == i,
                forall|j: int| 0 <= j < i ==> op_prec@[j] == spec_prec_entry(j),
            decreases 256 - i,
        {
            let v: u8 = if i == 0 || i == 1 {
                2
            } else if i == 2 || i == 3 {
                3
            } else if i == 4 {
                4
            } else if i == 5 {
                1
            } else {
                0
            };
            op_prec.push(v);
            i += 1;
        }
        assert forall|o: OpSet| op_prec@[op_id(o) as int] == prec(o) as u8 by {
            match o {
                OpSet::Add => assert(op_prec@[0] == spec_prec_entry(0)),
                OpSet::Sub => assert(op_prec@[1] == spec_prec_entry(1)),
                OpSet::Mul => assert(op_prec@[2] == spec_prec_entry(2)),
                OpSet::Div => assert(op_prec@[3] == spec_prec_entry(3)),
                OpSet::Pow => assert(op_prec@[4] == spec_prec_entry(4)),
                OpSet::Assign => assert(op_prec@[5] == spec_prec_entry(5)),
            }
        }
        AstParser { lexer, op_prec }
    }

    /// A copy of the precedence table.
    pub fn get_op_prec(&self) -> (r: Vec<u8>)
        requires
            self.wf(),
        ensures
            r@ == self.op_prec@,
    {
        let mut out: Vec<u8> = Vec::new();
        let mut i: usize = 0;
        while i < self.op_prec.len()
            invariant
                i <= self.op_prec@.len(),
                out@.len() == i,
                forall|j: int| 0 <= j < i ==> out@[j] == self.op_prec@[j],
            decreases self.op_prec@.len() - i,
        {
            out.push(self.op_prec[i]);
            i += 1;
        }
        assert(out@ =~= self.op_prec@);
        out
    }

    /// The precedence of an operator, read from the table.
    fn get_prec(&self, o: OpSet) -> (r: u8)
        requires
            self.wf(),
        ensures
            r as int == prec(o),
    {
        let id = op_id_x(o);
        self.op_prec[id as usize]
    }

    /// One operand, executably; see `spec_parse_primary`.
    fn parse_primary(&self, toks: &Vec<LexResult>, pos: usize, rb: usize) -> (r: Result<
        (Box<Expr>, usize),
        AstParseError,
    >)
        requires
            self.wf(),
            rb <= toks@.len(),
        ensures
            match spec_parse_primary(toks_view(toks@), pos as int, rb as int) {
                Ok((e, p)) => r matches Ok((ex, px)) && expr_view(*ex) == e && px as int == p && pos
                    < px <= rb,
                Err(er) => r matches Err(x) && x@ == er,
            },
        decreases rb - pos, 0int,
    {
        if pos >= rb {
            return Err(err_at_x(toks, pos, "expected an expression"));
        }
        match &toks[pos].token {
            LexToken::Raw(s) => Ok((Box::new(Expr::Idnt(Idnt::Raw(s.clone()))), pos + 1)),
            LexToken::Var(v) => {
                let v = *v;
                let mut is_call = false;
                if pos + 1 < rb {
                    match &toks[pos + 1].token {
                        LexToken::Par(ParSet::LPar) => {
                            is_call = true;
                        },
                        _ => {},
                    }
                }
                if is_call {
                    match find_close_x(toks, pos + 2, rb, 0) {
                        None => Err(err_at_x(toks, pos + 1, "unbalanced parentheses")),
                        Some(c) => {
                            assert(clamp_pos(c as int, pos + 2, rb - 1) == c as int);
                            if c == pos + 2 {
                                let arg: Vec<Box<Expr>> = Vec::new();
                                let e = Box::new(Expr::Fun(FunExpr { id: v, arg }));
                                assert(expr_view(*e) == ExprS::Fun(v, Seq::<ExprS>::empty())) by {
                                    assert(exprs_view(Seq::<Box<Expr>>::empty())
                                        =~= Seq::<ExprS>::empty());
                                };
                                Ok((e, c + 1))
                            } else {
                                match self.parse_expr(toks, pos + 2, c) {
                                    Err(e) => Err(e),
                                    Ok(a) => {
                                        let ghost av = expr_view(*a);
                                        let mut arg: Vec<Box<Expr>> = Vec::new();
                                        arg.push(a);
                                        let e = Box::new(Expr::Fun(FunExpr { id: v, arg }));
                                        assert(expr_view(*e) == ExprS::Fun(v, seq![av])) by {
                                            assert(arg@ =~= Seq::<Box<Expr>>::empty().push(
                                                arg@[0],
                                            ));
                                            lemma_exprs_view_push(
                                                Seq::<Box<Expr>>::empty(),
                                                arg@[0],
                                            );
                                            assert(exprs_view(Seq::<Box<Expr>>::empty()).push(av)
                                                =~= seq![av]);
                                        };
                                        Ok((e, c + 1))
                                    },
                                }
                            }
                        },
                    }
                } else {
                    Ok((Box::new(Expr::Idnt(Idnt::Var(v))), pos + 1))
                }
            },
            LexToken::Par(ParSet::LPar) => {
                match find_close_x(toks, pos + 1, rb, 0) {
                    None => Err(err_at_x(toks, pos, "unbalanced parentheses")),
                    Some(c) => {
                        assert(clamp_pos(c as int, pos + 1, rb - 1) == c as int);
                        if c == pos + 1 {
                            Err(err_at_x(toks, pos, "empty parentheses"))
                        } else {
                            match self.parse_expr(toks, pos + 1, c) {
                                Err(e) => Err(e),
                                Ok(inner) => Ok((inner, c + 1)),
                            }
                        }
                    },
                }
            },
            _ => Err(err_at_x(toks, pos, "expected an expression")),
        }
    }

    /// The operator chain, executably; see `spec_parse_ops`.
    fn parse_ops(
        &self,
        toks: &Vec<LexResult>,
        lhs: Box<Expr>,
        pos: usize,
        rb: usize,
        minp: u8,
    ) -> (r: Result<(Box<Expr>, usize), AstParseError>)
        requires
            self.wf(),
            rb <= toks@.len(),
            pos <= rb,
        ensures
            match spec_parse_ops(toks_view(toks@), expr_view(*lhs), pos as int, rb as int,
                minp as int) {
                Ok((e, p)) => r matches Ok((ex, px)) && expr_view(*ex) == e && px as int == p && pos
                    <= px <= rb,
                Err(er) => r matches Err(x) && x@ == er,
            },
        decreases rb - pos, 2int,
    {
        if pos >= rb {
            return Ok((lhs, pos));
        }
        let o: Option<OpSet> = match &toks[pos].token {
            LexToken::Op(o) => Some(*o),
            _ => None,
        };
        match o {
            Some(o) => {
                let po = self.get_prec(o);
                if po >= minp {
                    assert(prec(o) <= 4);
                    let sub_min: u8 = if right_assoc_x(o) {
                        po
                    } else {
                        po + 1
                    };
                    match self.parse_binop(toks, pos + 1, rb, sub_min) {
                        Err(e) => Err(e),
                        Ok((rhs, p2)) => {
                            assert(clamp_pos(p2 as int, pos + 1, rb as int) == p2 as int);
                            let node = binop_node_x(o, lhs, rhs);
                            self.parse_ops(toks, node, p2, rb, minp)
                        },
                    }
                } else {
                    Ok((lhs, pos))
                }
            },
            None => Ok((lhs, pos)),
        }
    }

    /// An operand with its operator chain, executably; see
    /// `spec_parse_binop`.
    fn parse_binop(&self, toks: &Vec<LexResult>, pos: usize, rb: usize, minp: u8) -> (r: Result<
        (Box<Expr>, usize),
        AstParseError,
    >)
        requires
            self.wf(),
            rb <= toks@.len(),
        ensures
            match spec_parse_binop(toks_view(toks@), pos as int, rb as int, minp as int) {
                Ok((e, p)) => r matches Ok((ex, px)) && expr_view(*ex) == e && px as int == p && pos
                    < px <= rb,
                Err(er) => r matches Err(x) && x@ == er,
            },
        decreases rb - pos, 1int,
    {
        if pos >= rb {
            return Err(err_at_x(toks, pos, "expected an expression"));
        }
        match self.parse_primary(toks, pos, rb) {
            Err(e) => Err(e),
            Ok((lhs, p)) => {
                assert(clamp_pos(p as int, pos + 1, rb as int) == p as int);
                self.parse_ops(toks, lhs, p, rb, minp)
            },
        }
    }

    /// A complete expression over the token span `[lb, rb)`, executably; see
    /// `spec_parse_expr_span`.
    fn parse_expr(&self, toks: &Vec<LexResult>, lb: usize, rb: usize) -> (r: Result<
        Box<Expr>,
        AstParseError,
    >)
        requires
            self.wf(),
            rb <= toks@.len(),
        ensures
            match spec_parse_expr_span(toks_view(toks@), lb as int, rb as int) {
                Ok(e) => r matches Ok(b) && expr_view(*b) == e,
                Err(er) => r matches Err(x) && x@ == er,
            },
        decreases rb - lb, 3int,
    {
        match self.parse_binop(toks, lb, rb, 1) {
            Err(e) => Err(e),
            Ok((e, p)) => {
                if p == rb {
                    Ok(e)
                } else {
                    Err(err_at_x(toks, p, "unexpected token in expression"))
                }
            },
        }
    }

    /// Closes the expression span `[lb, i)` and appends its tree to the last
    /// statement, executably; see `close_expr`.
    fn close_expr_x(
        &self,
        toks: &Vec<LexResult>,
        lb: usize,
        i: usize,
        pa: &mut Vec<Stmt>,
    ) -> (r: Result<(), AstParseError>)
        requires
            self.wf(),
            lb <= i,
            i <= toks@.len(),
        ensures
            match close_expr(stmts_view(old(pa)@), lb as int, toks_view(toks@), i as int) {
                Ok(sts) => r is Ok && stmts_view(final(pa)@) == sts,
                Err(e) => r matches Err(x) && x@ == e && final(pa)@ == old(pa)@,
            },
    {
        let e = match self.parse_expr(toks, lb, i) {
            Err(er) => {
                return Err(er);
            },
            Ok(e) => e,
        };
        let ghost ev = expr_view(*e);
        let ghost old_stmts = stmts_view(pa@);
        if pa.len() == 0 {
            return Ok(());
        }
        let li = pa.len() - 1;
        let ghost old_last = pa@[li as int];
        match &mut pa[li] {
            Stmt::Raw(es) => {
                let ghost oes = es@;
                es.push(e);
                proof {
                    lemma_exprs_view_push(oes, es@.last());
                }
            },
            Stmt::Fun(f) => {
                let ghost oes = f.expr@;
                f.expr.push(e);
                proof {
                    lemma_exprs_view_push(oes, f.expr@.last());
                }
            },
        }
        proof {
            assert(stmts_view(pa@) =~= append_expr(old_stmts, ev));
        }
        Ok(())
    }

    /// One step of the statement machine, executably; see `spec_step`.
    fn step_x(
        &self,
        toks: &Vec<LexResult>,
        idx: usize,
        state: ParseState,
        expr_lb: usize,
        pa: &mut Vec<Stmt>,
    ) -> (r: Result<(ParseState, usize), AstParseError>)
        requires
            self.wf(),
            idx < toks@.len(),
            expr_lb <= idx,
        ensures
            match spec_step(
                PSt { st: state, lb: expr_lb as int, stmts: stmts_view(old(pa)@) },
                toks_view(toks@),
                idx as int,
            ) {
                Ok(p2) => r matches Ok((st2, lb2)) && st2 == p2.st && lb2 as int == p2.lb
                    && stmts_view(final(pa)@) == p2.stmts && lb2 <= idx,
                Err(e) => r matches Err(x) && x@ == e,
            },
    {
        let info = toks[idx].info;
        let ghost p0 = PSt { st: state, lb: expr_lb as int, stmts: stmts_view(pa@) };
        match state {
            ParseState::Null => match &toks[idx].token {
                LexToken::Par(ParSet::LPar) => {
                    pa.push(Stmt::Raw(Vec::new()));
                    proof {
                        assert(stmts_view(pa@) =~= p0.stmts.push(StmtS::Raw(Seq::empty())));
                    }
                    Ok((ParseState::ELPar { body: false }, idx))
                },
                LexToken::Var(_) => {
                    pa.push(Stmt::Raw(Vec::new()));
                    proof {
                        assert(stmts_view(pa@) =~= p0.stmts.push(StmtS::Raw(Seq::empty())));
                    }
                    Ok((ParseState::EVar { body: false }, idx))
                },
                LexToken::Raw(_) => {
                    pa.push(Stmt::Raw(Vec::new()));
                    proof {
                        assert(stmts_view(pa@) =~= p0.stmts.push(StmtS::Raw(Seq::empty())));
                    }
                    Ok((ParseState::ERaw { body: false }, idx))
                },
                LexToken::Key(KeySet::Func) => {
                    pa.push(Stmt::Fun(FunStmt::new()));
                    proof {
                        assert(stmts_view(pa@) =~= p0.stmts.push(
                            StmtS::Fun { id: 0, param: Seq::empty(), expr: Seq::empty() },
                        ));
                    }
                    Ok((ParseState::FunName, expr_lb))
                },
                LexToken::Endl => Ok((state, expr_lb)),
                LexToken::Par(ParSet::RBkt) => Ok((state, expr_lb)),
                _ => Err(
                    AstParseError::new("Expected left paren, variable, literal or keyword", info),
                ),
            },
            ParseState::EOp { body } => match &toks[idx].token {
                LexToken::Par(ParSet::LPar) => Ok((ParseState::ELPar { body }, expr_lb)),
                LexToken::Var(_) => Ok((ParseState::EVar { body }, expr_lb)),
                LexToken::Raw(_) => Ok((ParseState::ERaw { body }, expr_lb)),
                _ => Err(AstParseError::new("Expected left paren, variable or literal", info)),
            },
            ParseState::ELPar { body } => match &toks[idx].token {
                LexToken::Par(ParSet::RPar) => Ok((ParseState::ERPar { body }, expr_lb)),
                LexToken::Var(_) => Ok((ParseState::EVar { body }, expr_lb)),
                LexToken::Raw(_) => Ok((ParseState::ERaw { body }, expr_lb)),
                _ => Err(AstParseError::new("Expected right paren, variable or literal", info)),
            },
            ParseState::ERPar { body } => match &toks[idx].token {
                LexToken::Op(_) => Ok((ParseState::EOp { body }, expr_lb)),
                LexToken::Var(_) => Ok((ParseState::EVar { body }, expr_lb)),
                LexToken::Raw(_) => Ok((ParseState::ERaw { body }, expr_lb)),
                LexToken::Endl => match self.close_expr_x(toks, expr_lb, idx, pa) {
                    Err(e) => Err(e),
                    Ok(()) => Ok(
                        (
                            if body {
                                ParseState::FunBody
                            } else {
                                ParseState::Null
                            },
                            expr_lb,
                        ),
                    ),
                },
                _ => Err(AstParseError::new("Expected operator, variable or literal", info)),
            },
            ParseState::EVar { body } => match &toks[idx].token {
                LexToken::Op(_) => Ok((ParseState::EOp { body }, expr_lb)),
                LexToken::Par(ParSet::LPar) => Ok((ParseState::ELPar { body }, expr_lb)),
                LexToken::Par(ParSet::RPar) => Ok((ParseState::ERPar { body }, expr_lb)),
                LexToken::Endl => match self.close_expr_x(toks, expr_lb, idx, pa) {
                    Err(e) => Err(e),
                    Ok(()) => Ok(
                        (
                            if body {
                                ParseState::FunBody
                            } else {
                                ParseState::Null
                            },
                            expr_lb,
                        ),
                    ),
                },
                _ => Err(AstParseError::new("Expected operator, paren or end of line", info)),
            },
            ParseState::ERaw { body } => match &toks[idx].token {
                LexToken::Op(_) => Ok((ParseState::EOp { body }, expr_lb)),
                LexToken::Par(ParSet::RPar) => Ok((ParseState::ERPar { body }, expr_lb)),
                LexToken::Endl => match self.close_expr_x(toks, expr_lb, idx, pa) {
                    Err(e) => Err(e),
                    Ok(()) => Ok(
                        (
                            if body {
                                ParseState::FunBody
                            } else {
                                ParseState::Null
                            },
                            expr_lb,
                        ),
                    ),
                },
                _ => Err(AstParseError::new("Expected operator or right paren", info)),
            },
            ParseState::FunName => match &toks[idx].token {
                LexToken::Var(v) => {
                    let v = *v;
                    if pa.len() > 0 {
                        let li = pa.len() - 1;
                        match &mut pa[li] {
                            Stmt::Fun(f) => {
                                f.id = v;
                            },
                            Stmt::Raw(_) => {},
                        }
                    }
                    proof {
                        assert(stmts_view(pa@) =~= set_fun_name(p0.stmts, v));
                    }
                    Ok((ParseState::FunHead, expr_lb))
                },
                _ => Err(AstParseError::new("Expected function name", info)),
            },
            ParseState::FunHead => match &toks[idx].token {
                LexToken::Par(ParSet::LPar) => Ok((ParseState::FunParams, expr_lb)),
                _ => Err(AstParseError::new("Expected left paren after function name", info)),
            },
            ParseState::FunParams => match &toks[idx].token {
                LexToken::Var(v) => {
                    let v = *v;
                    if pa.len() > 0 {
                        let li = pa.len() - 1;
                        match &mut pa[li] {
                            Stmt::Fun(f) => {
                                f.param.push(v);
                            },
                            Stmt::Raw(_) => {},
                        }
                    }
                    proof {
                        assert(stmts_view(pa@) =~= push_param(p0.stmts, v));
                    }
                    Ok((ParseState::FunParams, expr_lb))
                },
                LexToken::Par(ParSet::RPar) => Ok((ParseState::FunShell, expr_lb)),
                _ => Err(AstParseError::new("Expected parameter name or right paren", info)),
            },
            ParseState::FunShell => match &toks[idx].token {
                LexToken::Endl => Ok((state, expr_lb)),
                LexToken::Par(ParSet::LBkt) => Ok((ParseState::FunBodyStart, expr_lb)),
                _ => Err(AstParseError::new("Expected left bracket", info)),
            },
            ParseState::FunBodyStart => match &toks[idx].token {
                LexToken::Endl => Ok((ParseState::FunBody, expr_lb)),
                LexToken::Par(ParSet::RBkt) => Ok((ParseState::Null, expr_lb)),
                _ => Err(AstParseError::new("Expected new line or right bracket", info)),
            },
            ParseState::FunBody => match &toks[idx].token {
                LexToken::Endl => Ok((state, expr_lb)),
                LexToken::Par(ParSet::RBkt) => Ok((ParseState::Null, expr_lb)),
                LexToken::Par(ParSet::LPar) => Ok((ParseState::ELPar { body: true }, idx)),
                LexToken::Var(_) => Ok((ParseState::EVar { body: true }, idx)),
                LexToken::Raw(_) => Ok((ParseState::ERaw { body: true }, idx)),
                _ => Err(
                    AstParseError::new("Expected expression, right bracket or end of line", info),
                ),
            },
        }
    }

    /// Parses a whole source text into its statements, or reports the first
    /// error. Every parse starts from a fresh symbol table, so the result is
    /// a pure function of the text: see `spec_parse`.
    pub fn parse(&mut self, code: &str) -> (r: Result<Vec<Stmt>, AstParseError>)
        requires
            old(self).wf(),
            code@.len() < usize::MAX,
        ensures
            final(self).wf(),
            match spec_parse(code@) {
                Ok(sts) => r matches Ok(p) && stmts_view(p@) == sts,
                Err(e) => r matches Err(x) && x@ == e,
            },
    {
        self.lexer = Lexer::new();
        let lexed = self.lexer.lex(code);
        let toks: Vec<LexResult> = match lexed {
            Err(e) => {
                let pos = e.position();
                return Err(AstParseError::new(e.message(), pos));
            },
            Ok(v) => v,
        };
        let ghost tv = toks_view(toks@);
        let mut pa: Vec<Stmt> = Vec::new();
        let mut state = ParseState::Null;
        let mut expr_lb: usize = 0;
        let mut idx: usize = 0;
        let n = toks.len();
        proof {
            assert(stmts_view(pa@) =~= Seq::<StmtS>::empty());
        }
        while idx < n
            invariant
                self.wf(),
                n == toks@.len(),
                idx <= n,
                expr_lb <= idx,
                tv == toks_view(toks@),
                spec_parse(code@) == spec_parse_toks(tv, 0, init_pst()),
                spec_parse_toks(tv, 0, init_pst()) == spec_parse_toks(
                    tv,
                    idx as int,
                    PSt { st: state, lb: expr_lb as int, stmts: stmts_view(pa@) },
                ),
            decreases n - idx,
        {
            let ghost pa_snap = pa@;
            match self.step_x(&toks, idx, state, expr_lb, &mut pa) {
                Err(e) => {
                    proof {
                        let cur = PSt {
                            st: state,
                            lb: expr_lb as int,
                            stmts: stmts_view(pa_snap),
                        };
                        assert(spec_parse_toks(tv, idx as int, cur) == Err::<Seq<StmtS>, ErrS>(
                            e@,
                        ));
                        assert(spec_parse_toks(tv, 0, init_pst()) == Err::<Seq<StmtS>, ErrS>(e@));
                    }
                    return Err(e);
                },
                Ok((st2, lb2)) => {
                    state = st2;
                    expr_lb = lb2;
                    idx += 1;
                },
            }
        }
        Ok(pa)
    }
}

/// Idempotent re-parse: `parse` pins its result to `spec_parse` of the text
/// alone, since every parse begins with a fresh symbol table. Any two results
/// that meet that contract for one text are therefore identical, whatever the
/// two parsers' prior states were.
pub proof fn lemma_reparse_identical(
    code: Seq<char>,
    r1: Result<Seq<StmtS>, ErrS>,
    r2: Result<Seq<StmtS>, ErrS>,
)
    requires
        r1 == spec_parse(code),
        r2 == spec_parse(code),
    ensures
        r1 == r2,
{
}

} // verus!
