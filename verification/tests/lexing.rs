use script_ast::ast::KeySet;
use script_ast::ast::LexToken;
use script_ast::ast::OpSet;
use script_ast::ast::ParSet;
use script_ast::lexer::Lexer;

#[test]
fn positions_of_words() {
    let mut lx = Lexer::new();
    let toks = lx.lex("a + b\n").ok().unwrap();
    assert_eq!(toks.len(), 4);
    assert!(matches!(toks[0].token, LexToken::Var(0)));
    assert_eq!(toks[0].info, (1, 1));
    assert!(matches!(toks[1].token, LexToken::Op(OpSet::Add)));
    assert_eq!(toks[1].info, (1, 2));
    assert!(matches!(toks[2].token, LexToken::Var(1)));
    assert_eq!(toks[2].info, (1, 3));
    assert!(matches!(toks[3].token, LexToken::Endl));
    assert_eq!(toks[3].info, (1, 0));
}

#[test]
fn tokenize_twice_identical() {
    let src = "x = y + 2 * ( z - 1 )\nfunc g ( n )\n{\nn ** 2\n}\n";
    let mut a = Lexer::new();
    let mut b = Lexer::new();
    let ta = a.lex(src).ok().unwrap();
    let tb = b.lex(src).ok().unwrap();
    assert_eq!(ta.len(), tb.len());
    for i in 0..ta.len() {
        assert!(ta[i].token == tb[i].token);
        assert_eq!(ta[i].info, tb[i].info);
    }
}

#[test]
fn classification_priority() {
    let mut lx = Lexer::new();
    let toks = lx.lex("func ** = { } 2.5e3 .5 1. 2x inf\n").ok().unwrap();
    assert!(matches!(toks[0].token, LexToken::Key(KeySet::Func)));
    assert!(matches!(toks[1].token, LexToken::Op(OpSet::Pow)));
    assert!(matches!(toks[2].token, LexToken::Op(OpSet::Assign)));
    assert!(matches!(toks[3].token, LexToken::Par(ParSet::LBkt)));
    assert!(matches!(toks[4].token, LexToken::Par(ParSet::RBkt)));
    assert!(matches!(&toks[5].token, LexToken::Raw(s) if s == "2.5e3"));
    assert!(matches!(&toks[6].token, LexToken::Raw(s) if s == ".5"));
    assert!(matches!(&toks[7].token, LexToken::Raw(s) if s == "1."));
    // "2x" is no literal, so it falls through to an identifier
    assert!(matches!(toks[8].token, LexToken::Var(0)));
    assert!(matches!(&toks[9].token, LexToken::Raw(s) if s == "inf"));
    assert!(matches!(toks[10].token, LexToken::Endl));
}

#[test]
fn word_literals() {
    let mut lx = Lexer::new();
    let toks = lx.lex("inf Infinity NaN -inf +nan infi nana\n").ok().unwrap();
    assert!(matches!(&toks[0].token, LexToken::Raw(s) if s == "inf"));
    assert!(matches!(&toks[1].token, LexToken::Raw(s) if s == "Infinity"));
    assert!(matches!(&toks[2].token, LexToken::Raw(s) if s == "NaN"));
    assert!(matches!(&toks[3].token, LexToken::Raw(s) if s == "-inf"));
    assert!(matches!(&toks[4].token, LexToken::Raw(s) if s == "+nan"));
    // near misses are identifiers
    assert!(matches!(toks[5].token, LexToken::Var(0)));
    assert!(matches!(toks[6].token, LexToken::Var(1)));
    assert!(matches!(toks[7].token, LexToken::Endl));
}

#[test]
fn brackets_split_without_blanks() {
    let mut lx = Lexer::new();
    let toks = lx.lex("add(x y)\n").ok().unwrap();
    assert_eq!(toks.len(), 6);
    assert!(matches!(toks[0].token, LexToken::Var(0)));
    assert!(matches!(toks[1].token, LexToken::Par(ParSet::LPar)));
    assert!(matches!(toks[2].token, LexToken::Var(1)));
    assert!(matches!(toks[3].token, LexToken::Var(2)));
    assert!(matches!(toks[4].token, LexToken::Par(ParSet::RPar)));
    assert!(matches!(toks[5].token, LexToken::Endl));
}

#[test]
fn blank_lines_and_trim() {
    let mut lx = Lexer::new();
    let toks = lx.lex("  \n\n  a  \n\n").ok().unwrap();
    // trimming drops the blank lines at both ends; only one line remains
    assert_eq!(toks.len(), 2);
    assert!(matches!(toks[0].token, LexToken::Var(0)));
    assert_eq!(toks[0].info, (1, 1));
    assert!(matches!(toks[1].token, LexToken::Endl));
}

#[test]
fn interior_blank_line_keeps_line_numbers() {
    let mut lx = Lexer::new();
    let toks = lx.lex("a\n\nb\n").ok().unwrap();
    assert_eq!(toks.len(), 5);
    assert_eq!(toks[0].info, (1, 1));
    assert!(matches!(toks[1].token, LexToken::Endl));
    assert_eq!(toks[1].info, (1, 0));
    assert!(matches!(toks[2].token, LexToken::Endl));
    assert_eq!(toks[2].info, (2, 0));
    assert_eq!(toks[3].info, (3, 1));
    assert!(matches!(toks[4].token, LexToken::Endl));
    assert_eq!(toks[4].info, (3, 0));
}

#[test]
fn blank_source_yields_one_line_end() {
    let mut lx = Lexer::new();
    let toks = lx.lex("").ok().unwrap();
    assert_eq!(toks.len(), 1);
    assert!(matches!(toks[0].token, LexToken::Endl));
    assert_eq!(toks[0].info, (1, 0));
    let toks = lx.lex("   \n \t \n").ok().unwrap();
    assert_eq!(toks.len(), 1);
    assert!(matches!(toks[0].token, LexToken::Endl));
    assert_eq!(toks[0].info, (1, 0));
}

#[test]
fn interning_ids_stable() {
    let mut lx = Lexer::new();
    assert_eq!(lx.get_vid("alpha"), 0);
    assert_eq!(lx.get_vid("beta"), 1);
    assert_eq!(lx.get_vid("alpha"), 0);
    assert_eq!(lx.get_vid("beta"), 1);
    assert_eq!(lx.get_vid("gamma"), 2);
}

#[test]
fn spelling_ids() {
    let mut lx = Lexer::new();
    assert_eq!(lx.get_opid("+"), Some(0));
    assert_eq!(lx.get_opid("-"), Some(1));
    assert_eq!(lx.get_opid("*"), Some(2));
    assert_eq!(lx.get_opid("/"), Some(3));
    assert_eq!(lx.get_opid("**"), Some(4));
    assert_eq!(lx.get_opid("="), Some(5));
    assert_eq!(lx.get_opid("x"), None);
    assert_eq!(lx.get_opid("***"), None);
    assert_eq!(lx.get_kid("func"), Some(0));
    assert_eq!(lx.get_kid("fun"), None);
    assert_eq!(lx.get_pid("("), 0);
    assert_eq!(lx.get_pid(")"), 1);
    assert_eq!(lx.get_pid("{"), 2);
    assert_eq!(lx.get_pid("}"), 3);
}
