//! Checks of the surface pieces: lexer, parser, the reference tree
//! reducer, renderings, and the packed edge encoding.

use lambda_nets::edge::Edge;
use lambda_nets::lexer::{Lexer, Token};
use lambda_nets::parser::{ParseError, Parser};
use lambda_nets::tree::{decimal_string, Tree};

fn parse(term: &str) -> Result<Tree, ParseError> {
    let input = term.as_bytes();
    let lexer = Lexer::new(input);
    let mut parser = Parser::new(input, lexer);
    parser.parse()
}

#[test]
fn lexer_tokenises_all_shapes() {
    let input = b"(\\xy.x) z";
    let mut lexer = Lexer::new(input);
    assert!(matches!(lexer.next(), Some(Token::OpenParen)));
    assert!(matches!(lexer.next(), Some(Token::Lambda)));
    assert!(matches!(lexer.next(), Some(Token::Name(2, 2))));
    assert!(matches!(lexer.next(), Some(Token::Dot)));
    assert!(matches!(lexer.next(), Some(Token::Name(5, 1))));
    assert!(matches!(lexer.next(), Some(Token::CloseParen)));
    assert!(matches!(lexer.next(), Some(Token::Name(8, 1))));
    assert!(matches!(lexer.next(), None));
}

#[test]
fn lexer_backtracks_through_history() {
    let input = b"a b";
    let mut lexer = Lexer::new(input);
    let first = lexer.next();
    lexer.backtrack(1);
    let again = lexer.next();
    assert_eq!(format!("{:?}", first), format!("{:?}", again));
}

#[test]
fn parser_builds_indexed_identity() {
    let tree = parse("\\x.x").unwrap();
    match &tree {
        Tree::Abs(name, body) => {
            assert_eq!(name, "x");
            match &**body {
                Tree::Var(vname, index) => {
                    assert_eq!(vname, "x");
                    assert_eq!(*index, 0);
                }
                _ => panic!("body should be a variable"),
            }
        }
        _ => panic!("expected an abstraction"),
    }
}

#[test]
fn parser_folds_applications_left() {
    let tree = parse("\\x.x x x").unwrap();
    assert_eq!(tree.to_indexed_string(), "\u{3bb}(0 0) 0");
}

#[test]
fn multi_name_binder_folds_right() {
    let tree = parse("\\x y.x y").unwrap();
    assert_eq!(tree.to_indexed_string(), "\u{3bb}\u{3bb}1 0");
    assert_eq!(tree.to_string(), "\u{3bb}x y.x y");
}

#[test]
fn parse_error_variants() {
    assert!(matches!(parse(""), Err(ParseError::EmptyExpression)));
    assert!(matches!(parse("."), Err(ParseError::MisplacedDot)));
    assert!(matches!(parse(")"), Err(ParseError::UnopenedParen)));
    assert!(matches!(parse("(x"), Err(ParseError::UnclosedParen)));
    assert!(matches!(parse("\\"), Err(ParseError::EmptyAbstraction)));
    assert!(matches!(parse("\\."), Err(ParseError::EmptyAbstraction)));
    assert!(matches!(parse("\\x(.x"), Err(ParseError::ParenInAbstraction)));
    assert!(matches!(parse("\\x\\y.x"), Err(ParseError::NestedAbstraction)));
}

#[test]
fn unbound_names_get_sentinel_index() {
    let tree = parse("\\x.y").unwrap();
    assert_eq!(tree.to_indexed_string(), "\u{3bb}100");
}

#[test]
fn tree_reducer_normalises_identity_application() {
    let tree = parse("(\\x.x) (\\y.y)").unwrap();
    let mut gas = 100;
    let reduced = Tree::reduce_with_gas(tree, &mut gas);
    assert!(reduced.is_normal());
    assert_eq!(reduced.to_string(), "\u{3bb}y.y");
    assert!(gas == 100);
}

#[test]
fn tree_reducer_runs_out_of_gas_on_omega() {
    let tree = parse("(\\x.x x) (\\x.x x)").unwrap();
    let mut gas = 5;
    let reduced = Tree::reduce_with_gas(tree, &mut gas);
    assert_eq!(gas, 0);
    assert!(!reduced.is_normal());
}

#[test]
fn tree_reduction_is_call_by_tree_walk() {
    let tree = parse("(\\x.x x) (\\y.y)").unwrap();
    let stepped = Tree::reduction_step(tree);
    assert_eq!(stepped.to_indexed_string(), "(\u{3bb}0) \u{3bb}0");
}

#[test]
fn canonicalize_names_numbers_binders() {
    let tree = parse("\\x y.x y").unwrap();
    let canon = tree.canonicalize_names();
    assert_eq!(canon.to_string(), "\u{3bb}0 1.0 1");
    let shadowed = parse("\\x.\\x.x").unwrap();
    let canon2 = shadowed.canonicalize_names();
    assert_eq!(canon2.to_string(), "\u{3bb}0 1.1");
}

#[test]
fn canonicalize_marks_unbound_names() {
    let tree = parse("\\a.b").unwrap();
    let canon = tree.canonicalize_names();
    assert_eq!(canon.to_string(), "\u{3bb}0.X");
}

#[test]
fn fix_indices_recomputes_shadowed_binders() {
    let tree = parse("\\x.\\x.x").unwrap();
    assert_eq!(tree.to_indexed_string(), "\u{3bb}\u{3bb}0");
}

#[test]
fn decimal_rendering_is_exact() {
    assert_eq!(decimal_string(0), "0");
    assert_eq!(decimal_string(9), "9");
    assert_eq!(decimal_string(10), "10");
    assert_eq!(decimal_string(90210), "90210");
}

#[test]
fn edge_packs_port_and_pointer() {
    let e = Edge::new(3, 12345);
    assert_eq!(e.port(), 3);
    assert_eq!(e.ptr(), 12345);
    let f = Edge::new(0, 0);
    assert_eq!(f.port(), 0);
    assert_eq!(f.ptr(), 0);
    // only two bits of port and thirty of pointer are kept
    let g = Edge::new(7, 0x4000_0001);
    assert_eq!(g.port(), 3);
    assert_eq!(g.ptr(), 1);
}
