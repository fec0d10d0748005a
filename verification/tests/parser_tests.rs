use sophie::compiler::{ast_advance, build_ast, ASTParser};
use sophie::parser::{init_parser, parse, Place};
use sophie::scanner::TokenType;
use sophie::tree::Ast;

fn kinds_of(ast: &Ast, ids: &[usize]) -> Vec<TokenType> {
    ids.iter().map(|id| ast.token_of(*id).typ).collect()
}

fn text<'a>(source: &'a str, ast: &Ast, id: usize) -> &'a str {
    let token = ast.token_of(id);
    &source[token.start..token.start + token.length]
}

fn count_internal(ast: &Ast, id: usize) -> usize {
    let mut count = 0;
    for child in ast.children_of(id) {
        if ast.token_of(child).typ == TokenType::LEFTPAREN {
            count += 1;
        }
        count += count_internal(ast, child);
    }
    count
}

fn check_leaves(ast: &Ast, id: usize) {
    for child in ast.children_of(id) {
        let kind = ast.token_of(child).typ;
        assert_ne!(kind, TokenType::RIGHTPAREN);
        assert_ne!(kind, TokenType::EOF);
        if kind != TokenType::LEFTPAREN {
            assert!(ast.children_of(child).is_empty());
        }
        check_leaves(ast, child);
    }
}

#[test]
fn the_root_is_a_noop_above_everything() {
    let (ast, parser) = parse("1 2 3");
    let root = ast.token_of(ast.root);
    assert_eq!(root.typ, TokenType::NOOP);
    assert_eq!(root.line, 0);
    assert_eq!(root.start, 0);
    assert_eq!(root.length, 0);
    let top = ast.children_of(ast.root);
    assert_eq!(kinds_of(&ast, &top), vec![TokenType::INT, TokenType::INT, TokenType::INT]);
    assert!(!parser.had_error);
}

#[test]
fn an_empty_source_gives_the_root_alone() {
    let (ast, parser) = parse("  \n ");
    assert!(ast.children_of(ast.root).is_empty());
    assert_eq!(ast.tokens.len(), 1);
    assert!(!parser.had_error);
}

#[test]
fn a_list_holds_what_stands_between_its_parentheses() {
    let source = "(+ 1 (* 2 3) x)";
    let (ast, parser) = parse(source);
    assert!(!parser.had_error);
    let top = ast.children_of(ast.root);
    assert_eq!(top.len(), 1);
    assert_eq!(ast.token_of(top[0]).typ, TokenType::LEFTPAREN);
    let outer = ast.children_of(top[0]);
    assert_eq!(
        kinds_of(&ast, &outer),
        vec![TokenType::PLUS, TokenType::INT, TokenType::LEFTPAREN, TokenType::IDENTIFIER]
    );
    let inner = ast.children_of(outer[2]);
    assert_eq!(kinds_of(&ast, &inner), vec![TokenType::STAR, TokenType::INT, TokenType::INT]);
    assert_eq!(text(source, &ast, inner[1]), "2");
    assert_eq!(text(source, &ast, inner[2]), "3");
    assert_eq!(text(source, &ast, outer[3]), "x");
    assert!(ast.children_of(outer[0]).is_empty());
}

#[test]
fn expressions_at_the_top_follow_one_another() {
    let source = "(def x 7) (+ x 1) y";
    let (ast, parser) = parse(source);
    assert!(!parser.had_error);
    let top = ast.children_of(ast.root);
    assert_eq!(
        kinds_of(&ast, &top),
        vec![TokenType::LEFTPAREN, TokenType::LEFTPAREN, TokenType::IDENTIFIER]
    );
    assert_eq!(
        kinds_of(&ast, &ast.children_of(top[0])),
        vec![TokenType::DEF, TokenType::IDENTIFIER, TokenType::INT]
    );
    assert_eq!(
        kinds_of(&ast, &ast.children_of(top[1])),
        vec![TokenType::PLUS, TokenType::IDENTIFIER, TokenType::INT]
    );
}

#[test]
fn an_empty_list_is_an_internal_node_without_children() {
    let (ast, parser) = parse("()");
    assert!(!parser.had_error);
    let top = ast.children_of(ast.root);
    assert_eq!(kinds_of(&ast, &top), vec![TokenType::LEFTPAREN]);
    assert!(ast.children_of(top[0]).is_empty());
}

#[test]
fn the_tokens_of_the_tree_are_those_of_the_source() {
    let (ast, _) = parse("(a (b) c)");
    let kinds: Vec<TokenType> = ast.tokens.iter().map(|t| t.typ).collect();
    assert_eq!(
        kinds,
        vec![
            TokenType::NOOP,
            TokenType::LEFTPAREN,
            TokenType::IDENTIFIER,
            TokenType::LEFTPAREN,
            TokenType::IDENTIFIER,
            TokenType::RIGHTPAREN,
            TokenType::IDENTIFIER,
            TokenType::RIGHTPAREN,
        ]
    );
}

#[test]
fn there_are_as_many_internal_nodes_as_pairs_of_parentheses() {
    let (ast, parser) = parse("(a (b (c)) ()) (d) e");
    assert!(!parser.had_error);
    assert_eq!(count_internal(&ast, ast.root), 5);
    let closing = ast.tokens.iter().filter(|t| t.typ == TokenType::RIGHTPAREN).count();
    assert_eq!(closing, 5);
}

#[test]
fn no_leaf_holds_a_parenthesis() {
    let (ast, _) = parse("(a (b (c)) ()) ) (d e");
    check_leaves(&ast, ast.root);
}

#[test]
fn a_list_that_is_not_closed_is_an_error() {
    let (ast, parser) = parse("(+ 1");
    assert!(parser.had_error);
    assert_eq!(parser.diagnostics.len(), 1);
    assert_eq!(parser.diagnostics[0].place, Place::End);
    let top = ast.children_of(ast.root);
    assert_eq!(kinds_of(&ast, &top), vec![TokenType::LEFTPAREN]);
    assert_eq!(
        kinds_of(&ast, &ast.children_of(top[0])),
        vec![TokenType::PLUS, TokenType::INT]
    );
}

#[test]
fn lists_that_are_not_closed_end_with_the_source() {
    let (ast, parser) = parse("(a (b (c");
    assert!(parser.had_error);
    assert_eq!(count_internal(&ast, ast.root), 3);
    assert_eq!(parser.current.as_ref().unwrap().typ, TokenType::EOF);
}

#[test]
fn a_closing_parenthesis_that_closes_nothing_is_an_error_without_a_node() {
    let (ast, parser) = parse("a ) b");
    assert!(parser.had_error);
    let top = ast.children_of(ast.root);
    assert_eq!(kinds_of(&ast, &top), vec![TokenType::IDENTIFIER, TokenType::IDENTIFIER]);
    assert_eq!(parser.diagnostics.len(), 1);
    assert_eq!(parser.diagnostics[0].place, Place::Lexeme(2, 1));
    assert_eq!(parser.diagnostics[0].line, 1);
}

#[test]
fn an_error_of_the_scanner_is_an_error_of_the_parser() {
    let (ast, parser) = parse("(+ 1 @ 2)");
    assert!(parser.had_error);
    assert_eq!(parser.diagnostics.len(), 1);
    assert_eq!(parser.diagnostics[0].place, Place::Nowhere);
    assert_eq!(parser.diagnostics[0].message, "Unexpected character.");
    let top = ast.children_of(ast.root);
    assert_eq!(
        kinds_of(&ast, &ast.children_of(top[0])),
        vec![TokenType::PLUS, TokenType::INT, TokenType::INT]
    );
}

#[test]
fn errors_after_the_first_of_an_expression_are_passed_over_in_silence() {
    let (_, parser) = parse("(@ @ @)\n(#)");
    assert!(parser.had_error);
    assert_eq!(parser.diagnostics.len(), 2);
    assert_eq!(parser.diagnostics[0].line, 1);
    assert_eq!(parser.diagnostics[1].line, 2);
}

#[test]
fn advance_takes_the_next_token_that_is_no_error() {
    let mut parser: ASTParser = init_parser("@ 12 x");
    ast_advance(&mut parser);
    let token = parser.current.as_ref().unwrap();
    assert_eq!(token.typ, TokenType::INT);
    assert_eq!(token.start, 2);
    assert_eq!(token.length, 2);
    assert!(parser.had_error);
    assert!(parser.panic_mode);
    assert_eq!(parser.diagnostics.len(), 1);
    ast_advance(&mut parser);
    assert_eq!(parser.current.as_ref().unwrap().typ, TokenType::IDENTIFIER);
    ast_advance(&mut parser);
    assert_eq!(parser.current.as_ref().unwrap().typ, TokenType::EOF);
}

#[test]
fn build_ast_leaves_the_parser_at_the_end() {
    let mut parser = init_parser("(a b) c");
    let ast = build_ast(&mut parser);
    assert_eq!(parser.current.as_ref().unwrap().typ, TokenType::EOF);
    assert!(!parser.had_error);
    assert_eq!(ast.children_of(ast.root).len(), 2);
}

#[test]
fn children_stand_in_the_order_of_the_source() {
    let source = "(f a b c d e)";
    let (ast, _) = parse(source);
    let top = ast.children_of(ast.root);
    let kids = ast.children_of(top[0]);
    let names: Vec<&str> = kids.iter().map(|id| text(source, &ast, *id)).collect();
    assert_eq!(names, vec!["f", "a", "b", "c", "d", "e"]);
    let mut last = 0;
    for id in kids {
        let start = ast.token_of(id).start;
        assert!(start > last);
        last = start;
    }
}
