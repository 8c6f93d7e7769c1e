use lib::parser::models::expression::{BinaryExpression, Expression, FunctionCall};
use lib::semantic::models::semantic::{Symbol, SymbolTable, SymbolType};

fn variable(name: &str, t: &str) -> Symbol {
    Symbol { name: name.to_string(), symbol_type: SymbolType::Variable(t.to_string()) }
}

fn variable_type(s: Option<&Symbol>) -> Option<String> {
    match s {
        Some(Symbol { symbol_type: SymbolType::Variable(t), .. }) => Some(t.clone()),
        _ => None,
    }
}

#[test]
fn defined_symbol_resolves() {
    let mut table = SymbolTable::new(None);
    assert!(table.define("x".to_string(), variable("x", "int")).is_ok());
    assert_eq!(variable_type(table.resolve("x")), Some("int".to_string()));
    assert!(table.resolve("y").is_none());
}

#[test]
fn redefinition_is_refused_and_keeps_the_first() {
    let mut table = SymbolTable::new(None);
    table.define("x".to_string(), variable("x", "int")).unwrap();
    let err = table.define("x".to_string(), variable("x", "string")).unwrap_err();
    assert_eq!(err, "Symbol 'x' already defined in the current scope.");
    assert_eq!(variable_type(table.resolve("x")), Some("int".to_string()));
    assert_eq!(table.symbols.len(), 1);
}

#[test]
fn inner_scope_shadows_and_falls_back() {
    let mut outer = SymbolTable::new(None);
    outer.define("x".to_string(), variable("x", "int")).unwrap();
    outer.define("y".to_string(), variable("y", "bool")).unwrap();
    let mut inner = SymbolTable::new(Some(Box::new(outer)));
    inner.define("x".to_string(), variable("x", "string")).unwrap();
    assert_eq!(variable_type(inner.resolve("x")), Some("string".to_string()));
    assert_eq!(variable_type(inner.resolve("y")), Some("bool".to_string()));
    let outer = *inner.parent.unwrap();
    assert_eq!(variable_type(outer.resolve("x")), Some("int".to_string()));
}

#[test]
fn function_symbols_keep_their_signature() {
    let mut table = SymbolTable::new(None);
    let f = Symbol {
        name: "f".to_string(),
        symbol_type: SymbolType::Function { parameters: vec!["int".to_string()], return_type: "bool".to_string() },
    };
    table.define("f".to_string(), f).unwrap();
    match table.resolve("f") {
        Some(Symbol { symbol_type: SymbolType::Function { parameters, return_type }, .. }) => {
            assert_eq!(parameters, &vec!["int".to_string()]);
            assert_eq!(return_type, "bool");
        }
        _ => panic!("function expected"),
    }
}

#[test]
fn expressions_print_as_written() {
    let e = Expression::Binary(Box::new(BinaryExpression {
        left: Expression::FunctionCall(Box::new(FunctionCall {
            name: "f".to_string(),
            arguments: vec![Expression::Int(-1), Expression::Str("a".to_string()), Expression::Bool(true)],
        })),
        op: "*".to_string(),
        right: Expression::Float("2.5".to_string()),
    }));
    assert_eq!(e.to_string(), "(f(-1, \"a\", true) * 2.5)");
    assert_eq!(Expression::Ident("v".to_string()).as_ref(), "v");
    assert_eq!(Expression::Str("s".to_string()).as_ref(), "s");
}
