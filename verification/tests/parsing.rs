use script_ast::ast::BinOp;
use script_ast::ast::Expr;
use script_ast::ast::FunExpr;
use script_ast::ast::FunStmt;
use script_ast::ast::Idnt;
use script_ast::ast::Stmt;
use script_ast::parser::AstParser;

fn num(s: &str) -> Box<Expr> {
    Box::new(Expr::Idnt(Idnt::Raw(s.to_string())))
}

fn ident(v: u32) -> Box<Expr> {
    Box::new(Expr::Idnt(Idnt::Var(v)))
}

fn badd(l: Box<Expr>, r: Box<Expr>) -> Box<Expr> {
    Box::new(Expr::Add(BinOp { lhs: l, rhs: r }))
}

fn bmul(l: Box<Expr>, r: Box<Expr>) -> Box<Expr> {
    Box::new(Expr::Mul(BinOp { lhs: l, rhs: r }))
}

fn bdiv(l: Box<Expr>, r: Box<Expr>) -> Box<Expr> {
    Box::new(Expr::Div(BinOp { lhs: l, rhs: r }))
}

fn bpow(l: Box<Expr>, r: Box<Expr>) -> Box<Expr> {
    Box::new(Expr::Pow(BinOp { lhs: l, rhs: r }))
}

fn bassign(l: Box<Expr>, r: Box<Expr>) -> Box<Expr> {
    Box::new(Expr::Assign(BinOp { lhs: l, rhs: r }))
}

#[test]
fn precedence_add_mul() {
    let mut p = AstParser::new();
    let prog = p.parse("2 + 3 * 4\n").ok().unwrap();
    let expected = vec![Stmt::Raw(vec![badd(num("2"), bmul(num("3"), num("4")))])];
    assert_eq!(prog, expected);
}

#[test]
fn power_is_right_associative() {
    let mut p = AstParser::new();
    let prog = p.parse("2 ** 3 ** 2\n").ok().unwrap();
    let expected = vec![Stmt::Raw(vec![bpow(num("2"), bpow(num("3"), num("2")))])];
    assert_eq!(prog, expected);
}

#[test]
fn division_is_left_associative() {
    let mut p = AstParser::new();
    let prog = p.parse("8 / 4 / 2\n").ok().unwrap();
    let expected = vec![Stmt::Raw(vec![bdiv(bdiv(num("8"), num("4")), num("2"))])];
    assert_eq!(prog, expected);
}

#[test]
fn assignment_is_right_associative() {
    let mut p = AstParser::new();
    let prog = p.parse("x = y = 1\n").ok().unwrap();
    let expected = vec![Stmt::Raw(vec![bassign(ident(0), bassign(ident(1), num("1")))])];
    assert_eq!(prog, expected);
}

#[test]
fn parentheses_group() {
    let mut p = AstParser::new();
    let prog = p.parse("( 1 + 2 ) * 3\n").ok().unwrap();
    let expected = vec![Stmt::Raw(vec![bmul(badd(num("1"), num("2")), num("3"))])];
    assert_eq!(prog, expected);
}

#[test]
fn parentheses_group_without_blanks() {
    let mut p = AstParser::new();
    let prog = p.parse("(1 + 2) * 3\n").ok().unwrap();
    let expected = vec![Stmt::Raw(vec![bmul(badd(num("1"), num("2")), num("3"))])];
    assert_eq!(prog, expected);
}

#[test]
fn function_declaration_shape() {
    let mut p = AstParser::new();
    let prog = p.parse("func add(x y)\n{\nx + y\n}\n").ok().unwrap();
    let expected = vec![Stmt::Fun(FunStmt {
        id: 0,
        param: vec![1, 2],
        expr: vec![badd(ident(1), ident(2))],
    })];
    assert_eq!(prog, expected);
}

#[test]
fn function_call_single_argument() {
    let mut p = AstParser::new();
    let prog = p.parse("f ( 1 + 2 )\n").ok().unwrap();
    let expected = vec![Stmt::Raw(vec![Box::new(Expr::Fun(FunExpr {
        id: 0,
        arg: vec![badd(num("1"), num("2"))],
    }))])];
    assert_eq!(prog, expected);
}

#[test]
fn function_call_no_argument() {
    let mut p = AstParser::new();
    let prog = p.parse("f()\n").ok().unwrap();
    let expected = vec![Stmt::Raw(vec![Box::new(Expr::Fun(FunExpr { id: 0, arg: vec![] }))])];
    assert_eq!(prog, expected);
}

#[test]
fn operator_without_operand_is_rejected() {
    let mut p = AstParser::new();
    let e = p.parse("+ 1\n").err().unwrap();
    assert_eq!(e.position(), (1, 1));
}

#[test]
fn error_positions_are_exact() {
    let mut p = AstParser::new();
    let e = p.parse("a\nb + +\n").err().unwrap();
    // the second `+` of line 2 is the first illegal token
    assert_eq!(e.position(), (2, 3));
    assert_eq!(e.message(), "Expected left paren, variable or literal");
}

#[test]
fn function_name_must_be_identifier() {
    let mut p = AstParser::new();
    let e = p.parse("func 1\n").err().unwrap();
    assert_eq!(e.position(), (1, 2));
    assert_eq!(e.message(), "Expected function name");
}

#[test]
fn unbalanced_parentheses_are_rejected() {
    let mut p = AstParser::new();
    let e = p.parse("( 1 + 2\n").err().unwrap();
    assert_eq!(e.message(), "unbalanced parentheses");
    assert_eq!(e.position(), (1, 1));
}

#[test]
fn empty_parentheses_are_rejected() {
    let mut p = AstParser::new();
    let e = p.parse("( )\n").err().unwrap();
    assert_eq!(e.message(), "empty parentheses");
}

#[test]
fn reparse_identical_text_identical_program() {
    let src = "v = 2 + 3 * 4\nfunc twice(n)\n{\nn * 2\n}\ntwice ( v )\n";
    let mut p1 = AstParser::new();
    let mut p2 = AstParser::new();
    let a = p1.parse(src).ok().unwrap();
    let b = p2.parse(src).ok().unwrap();
    assert_eq!(a, b);
}

#[test]
fn parser_reuse_starts_fresh() {
    let mut p = AstParser::new();
    let a = p.parse("a\n").ok().unwrap();
    let b = p.parse("a\n").ok().unwrap();
    assert_eq!(a, b);
    assert_eq!(a, vec![Stmt::Raw(vec![ident(0)])]);
}

#[test]
fn empty_source_is_empty_program() {
    let mut p = AstParser::new();
    assert_eq!(p.parse("").ok().unwrap(), vec![]);
    assert_eq!(p.parse("  \n \n ").ok().unwrap(), vec![]);
}

#[test]
fn statements_keep_source_order() {
    let mut p = AstParser::new();
    let prog = p.parse("a\nb\na\n").ok().unwrap();
    let expected = vec![
        Stmt::Raw(vec![ident(0)]),
        Stmt::Raw(vec![ident(1)]),
        Stmt::Raw(vec![ident(0)]),
    ];
    assert_eq!(prog, expected);
}

#[test]
fn empty_function_body_is_accepted() {
    let mut p = AstParser::new();
    let prog = p.parse("func f ( )\n{\n}\n").ok().unwrap();
    let expected = vec![Stmt::Fun(FunStmt { id: 0, param: vec![], expr: vec![] })];
    assert_eq!(prog, expected);
    let prog = p.parse("func f ( )\n{ }\n").ok().unwrap();
    assert_eq!(prog, expected);
}

#[test]
fn body_line_must_start_fresh() {
    let mut p = AstParser::new();
    // an expression token directly after the opening brace is illegal
    let e = p.parse("func f ( )\n{ x\n}\n").err().unwrap();
    assert_eq!(e.message(), "Expected new line or right bracket");
    assert_eq!(e.position(), (2, 2));
}

#[test]
fn precedence_table_layout() {
    let p = AstParser::new();
    let t = p.get_op_prec();
    assert_eq!(t.len(), 256);
    assert_eq!(t[0], 2);
    assert_eq!(t[1], 2);
    assert_eq!(t[2], 3);
    assert_eq!(t[3], 3);
    assert_eq!(t[4], 4);
    assert_eq!(t[5], 1);
    for i in 6..256 {
        assert_eq!(t[i], 0);
    }
}
