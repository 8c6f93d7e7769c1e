use lib::lex::lexer::tokenize;
use lib::parser::models::expression::Expression;
use lib::parser::models::statement::Statement;
use lib::parser::parser::Parser;

fn parse(source: &str) -> Vec<Statement> {
    let mut parser = Parser::new(tokenize(source.to_string()));
    parser.parse_file().statements
}

fn text(e: &Expression) -> String {
    e.to_string()
}

#[test]
fn parses_declaration_with_precedence() {
    let statements = parse("let x: int = 1 + 2 * 3;");
    assert_eq!(statements.len(), 1);
    match &statements[0] {
        Statement::VarDeclaration(d) => {
            assert_eq!(d.name, "x");
            assert_eq!(d.declared_type, "int");
            assert_eq!(text(d.init.as_ref().unwrap()), "(1 + (2 * 3))");
        }
        other => panic!("unexpected statement {:?}", other),
    }
}

#[test]
fn operators_of_one_level_group_to_the_left() {
    let statements = parse("x = 10 - 4 - 3;");
    match &statements[0] {
        Statement::VarAffection(a) => {
            assert_eq!(a.name, "x");
            assert_eq!(text(&a.value), "((10 - 4) - 3)");
        }
        other => panic!("unexpected statement {:?}", other),
    }
}

#[test]
fn parses_comparisons_and_parentheses() {
    let statements = parse("let b: bool = (a + 1) * 2 >= y == true;");
    match &statements[0] {
        Statement::VarDeclaration(d) => {
            assert_eq!(text(d.init.as_ref().unwrap()), "((((a + 1) * 2) >= y) == true)");
        }
        other => panic!("unexpected statement {:?}", other),
    }
}

#[test]
fn unary_minus_reads_as_zero_minus() {
    let statements = parse("let n: int = -5;");
    match &statements[0] {
        Statement::VarDeclaration(d) => assert_eq!(text(d.init.as_ref().unwrap()), "(0 - 5)"),
        other => panic!("unexpected statement {:?}", other),
    }
}

#[test]
fn parses_returns() {
    let statements = parse("return; return 3.5;");
    assert_eq!(statements.len(), 2);
    match (&statements[0], &statements[1]) {
        (Statement::Return(None), Statement::Return(Some(e))) => assert_eq!(text(e), "3.5"),
        other => panic!("unexpected statements {:?}", other),
    }
}

#[test]
fn declaration_without_value() {
    let statements = parse("let s: string;");
    match &statements[0] {
        Statement::VarDeclaration(d) => assert!(d.init.is_none()),
        other => panic!("unexpected statement {:?}", other),
    }
}

#[test]
fn parsing_stops_at_first_unparsable_statement() {
    let statements = parse("let a: int = 1; print(a); let b: int = 2;");
    assert_eq!(statements.len(), 1);
}

#[test]
fn missing_semicolon_stops_parsing() {
    let statements = parse("let a: int = 1 let b: int = 2;");
    assert!(statements.is_empty());
}

#[test]
fn consume_leaves_position_on_mismatch() {
    let mut parser = Parser::new(tokenize("let x".to_string()));
    assert!(parser.consume(lib::lex::models::token_type::TokenType::Identifier, "expected").is_none());
    assert_eq!(parser.position, 0);
    assert!(parser.consume_keyword("let").is_some());
    assert_eq!(parser.position, 1);
    assert!(parser.check(lib::lex::models::token_type::TokenType::Identifier));
}

#[test]
fn first_parser_reads_declarations_of_literals() {
    let mut parser = lib::ast::parser::Parser::new(tokenize("let x: float = 2.5; let y: bool = true;".to_string()));
    let ast = parser.parse();
    assert_eq!(ast.statements.len(), 2);
    match &ast.statements[0] {
        lib::ast::models::node::Statement::VarDecl(d) => {
            assert_eq!(d.name, "x");
            assert_eq!(d.declared_type, "float");
            assert!(matches!(&d.init, Some(lib::ast::models::node::Expression::Float(t)) if t == "2.5"));
        }
        _ => panic!("unexpected statement"),
    }
    match &ast.statements[1] {
        lib::ast::models::node::Statement::VarDecl(d) => {
            assert!(matches!(d.init, Some(lib::ast::models::node::Expression::Bool(true))));
        }
        _ => panic!("unexpected statement"),
    }
}

#[test]
fn first_parser_stops_on_other_statements() {
    let mut parser = lib::ast::parser::Parser::new(tokenize("x = 1;".to_string()));
    let ast = parser.parse();
    assert!(ast.statements.is_empty());
}

#[test]
fn unary_not_parses() {
    let statements = parse("let b: bool = !x;");
    match &statements[0] {
        Statement::VarDeclaration(d) => assert_eq!(text(d.init.as_ref().unwrap()), "(0 ! x)"),
        other => panic!("unexpected statement {:?}", other),
    }
}
