use lib::parser::models::ast::AST;
use lib::parser::models::expression::{BinaryExpression, Expression};
use lib::parser::models::statement::{
    ForStatement, FunctionDeclaration, IfStatement, Parameter, Statement, SwitchCase,
    SwitchStatement, VarAffection, VarDeclaration, WhileStatement,
};
use lib::semantic::analyzer::SemanticAnalyzer;

fn analyze_source(source: &str) -> SemanticAnalyzer {
    let mut analyzer = SemanticAnalyzer::new(source.to_string());
    analyzer.analyze();
    analyzer
}

fn analyze_statements(statements: Vec<Statement>) -> SemanticAnalyzer {
    let mut analyzer = SemanticAnalyzer::from_ast(AST { statements });
    analyzer.analyze();
    analyzer
}

fn ident(name: &str) -> Expression {
    Expression::Ident(name.to_string())
}

fn string(text: &str) -> Expression {
    Expression::Str(text.to_string())
}

fn binary(left: Expression, op: &str, right: Expression) -> Expression {
    Expression::Binary(Box::new(BinaryExpression { left, op: op.to_string(), right }))
}

fn let_var(name: &str, declared_type: &str, init: Option<Expression>) -> Statement {
    Statement::VarDeclaration(VarDeclaration {
        name: name.to_string(),
        declared_type: declared_type.to_string(),
        init,
    })
}

fn assign(name: &str, value: Expression) -> Statement {
    Statement::VarAffection(VarAffection { name: name.to_string(), value })
}

fn function(name: &str, params: &[(&str, &str)], return_type: &str, body: Vec<Statement>) -> Statement {
    Statement::FunctionDeclaration(FunctionDeclaration {
        name: name.to_string(),
        parameters: params
            .iter()
            .map(|(n, t)| Parameter { name: n.to_string(), declared_type: t.to_string() })
            .collect(),
        return_type: return_type.to_string(),
        body,
    })
}

fn for_loop(init: Statement, cond: Expression, incr: Statement, body: Vec<Statement>) -> Statement {
    Statement::For(ForStatement {
        init: Box::new(init),
        cond: Box::new(Statement::ExpressionStatement(cond)),
        incr: Box::new(incr),
        body,
    })
}

#[test]
fn test_var_declaration() {
    let good_analyzer =
        analyze_source("let x: int = 5;\nlet name: string = \"Hello\";\nlet y: int = x + 1;\n");
    assert!(
        good_analyzer.errors.is_empty(),
        "No semantic errors expected in var_decl_good.own, got: {:?}",
        good_analyzer.errors
    );

    let bad_analyzer = analyze_source("let x: string = 5;\n");
    assert!(!bad_analyzer.errors.is_empty(), "Semantic errors expected in var_decl_bad.own");
    assert_eq!(
        bad_analyzer.errors.len(),
        1,
        "Exactly one error expected in var_decl_bad.own, got: {:?}",
        bad_analyzer.errors
    );
    assert_eq!(
        bad_analyzer.errors[0],
        "Type mismatch in variable declaration 'x': expected 'string', found 'int'."
    );
}

#[test]
fn test_return_statement() {
    let good_analyzer = analyze_statements(vec![function(
        "get",
        &[],
        "int",
        vec![let_var("x", "int", Some(Expression::Int(3))), Statement::Return(Some(ident("x")))],
    )]);
    assert!(
        good_analyzer.errors.is_empty(),
        "No semantic errors expected in return_good.own, got: {:?}",
        good_analyzer.errors
    );

    let bad_analyzer = analyze_statements(vec![function(
        "get",
        &[],
        "int",
        vec![Statement::Return(Some(string("hello")))],
    )]);
    assert!(!bad_analyzer.errors.is_empty(), "Semantic errors expected in return_bad.own");
    assert_eq!(
        bad_analyzer.errors.len(),
        1,
        "Exactly one error expected in return_bad.own, got: {:?}",
        bad_analyzer.errors
    );
    assert_eq!(
        bad_analyzer.errors[0],
        "Type mismatch in return statement: expected 'int', found 'string'."
    );
}

#[test]
fn test_var_affection() {
    let good_analyzer = analyze_source("let x: int = 5;\nx = x + 2;\n");
    assert!(
        good_analyzer.errors.is_empty(),
        "No semantic errors expected in var_affection_good.own, got: {:?}",
        good_analyzer.errors
    );

    let bad_analyzer = analyze_source("let x: int = 5;\nx = \"hello\";\n");
    assert!(!bad_analyzer.errors.is_empty(), "Semantic errors expected in var_affection_bad.own");
    assert_eq!(
        bad_analyzer.errors.len(),
        1,
        "Exactly one error expected in var_affection_bad.own, got: {:?}",
        bad_analyzer.errors
    );
    assert_eq!(
        bad_analyzer.errors[0],
        "Type mismatch in assignment to 'x': expected 'int', found 'string'."
    );
}

#[test]
fn test_if_statement() {
    let good_analyzer = analyze_statements(vec![
        let_var("x", "int", Some(Expression::Int(10))),
        Statement::If(IfStatement {
            condition: binary(ident("x"), ">", Expression::Int(5)),
            then_branch: vec![let_var("y", "int", Some(Expression::Int(1)))],
            else_branch: Some(vec![let_var("y", "string", Some(string("no")))]),
        }),
    ]);
    assert!(
        good_analyzer.errors.is_empty(),
        "No semantic errors expected in if_good.own, got: {:?}",
        good_analyzer.errors
    );

    let bad_analyzer = analyze_statements(vec![Statement::If(IfStatement {
        condition: Expression::Int(1),
        then_branch: vec![],
        else_branch: None,
    })]);
    assert!(!bad_analyzer.errors.is_empty(), "Semantic errors expected in if_bad.own");
    assert_eq!(
        bad_analyzer.errors.len(),
        1,
        "Exactly one error expected in if_bad.own, got: {:?}",
        bad_analyzer.errors
    );
    assert_eq!(
        bad_analyzer.errors[0],
        "Condition in 'if' statement must be of type 'bool', found 'int'."
    );
}

#[test]
fn test_for_statement() {
    let good_analyzer = analyze_statements(vec![function(
        "count",
        &[],
        "void",
        vec![for_loop(
            let_var("i", "int", Some(Expression::Int(0))),
            binary(ident("i"), "<", Expression::Int(10)),
            assign("i", binary(ident("i"), "+", Expression::Int(1))),
            vec![let_var("j", "int", Some(ident("i")))],
        )],
    )]);
    assert!(
        good_analyzer.errors.is_empty(),
        "No semantic errors expected in for_good.own, got: {:?}",
        good_analyzer.errors
    );

    let bad_analyzer = analyze_statements(vec![for_loop(
        let_var("i", "int", Some(Expression::Int(0))),
        binary(ident("i"), "+", Expression::Int(1)),
        assign("i", string("one")),
        vec![],
    )]);
    assert!(!bad_analyzer.errors.is_empty(), "Semantic errors expected in for_bad.own");
    assert_eq!(
        bad_analyzer.errors.len(),
        2,
        "Expected 2 errors in for_bad.own, got: {:?}",
        bad_analyzer.errors
    );
    assert!(bad_analyzer
        .errors
        .iter()
        .any(|e| e.contains("Condition in 'for' statement must be of type 'bool'")));
    assert!(bad_analyzer.errors.iter().any(|e| e.contains("Type mismatch in assignment to 'i'")));
}

#[test]
fn test_while_statement() {
    let good_analyzer = analyze_statements(vec![
        let_var("count", "int", Some(Expression::Int(0))),
        Statement::While(WhileStatement {
            condition: binary(ident("count"), "<", Expression::Int(5)),
            body: vec![assign("count", binary(ident("count"), "+", Expression::Int(1)))],
        }),
    ]);
    assert!(
        good_analyzer.errors.is_empty(),
        "No semantic errors expected in while_good.own, got: {:?}",
        good_analyzer.errors
    );

    let bad_analyzer = analyze_statements(vec![Statement::While(WhileStatement {
        condition: string("hello"),
        body: vec![],
    })]);
    assert!(!bad_analyzer.errors.is_empty(), "Semantic errors expected in while_bad.own");
    assert_eq!(
        bad_analyzer.errors.len(),
        1,
        "Expected 1 error in while_bad.own, got: {:?}",
        bad_analyzer.errors
    );
    assert_eq!(
        bad_analyzer.errors[0],
        "Condition in 'while' statement must be of type 'bool', found 'string'."
    );
}

#[test]
fn test_switch_statement() {
    let good_analyzer = analyze_statements(vec![
        let_var("x", "int", Some(Expression::Int(2))),
        Statement::Switch(SwitchStatement {
            condition: ident("x"),
            cases: vec![
                SwitchCase { value: Expression::Int(1), body: vec![assign("x", Expression::Int(3))] },
                SwitchCase { value: Expression::Int(2), body: vec![] },
            ],
            default: Some(vec![assign("x", Expression::Int(0))]),
        }),
    ]);
    assert!(
        good_analyzer.errors.is_empty(),
        "No semantic errors expected in switch_good.own, got: {:?}",
        good_analyzer.errors
    );

    let bad_analyzer = analyze_statements(vec![
        let_var("x", "int", Some(Expression::Int(2))),
        Statement::Switch(SwitchStatement {
            condition: ident("x"),
            cases: vec![SwitchCase { value: string("two"), body: vec![] }],
            default: None,
        }),
    ]);
    assert!(!bad_analyzer.errors.is_empty(), "Semantic errors expected in switch_bad.own");
    assert_eq!(
        bad_analyzer.errors.len(),
        1,
        "Expected 1 error in switch_bad.own, got: {:?}",
        bad_analyzer.errors
    );
    assert_eq!(bad_analyzer.errors[0], "Case type 'string' does not match switch type 'int'.");
}

#[test]
fn test_function_declaration() {
    let good_analyzer = analyze_statements(vec![function(
        "add",
        &[("a", "int"), ("b", "int")],
        "int",
        vec![
            let_var("result", "int", Some(binary(ident("a"), "+", ident("b")))),
            Statement::Return(Some(ident("result"))),
        ],
    )]);
    assert!(
        good_analyzer.errors.is_empty(),
        "No semantic errors expected in function_good.own, got: {:?}",
        good_analyzer.errors
    );

    let bad_analyzer = analyze_statements(vec![function(
        "add",
        &[("a", "int"), ("b", "int")],
        "int",
        vec![
            let_var("result", "string", Some(binary(ident("a"), "+", ident("b")))),
            Statement::Return(Some(ident("result"))),
        ],
    )]);
    assert!(!bad_analyzer.errors.is_empty(), "Semantic errors expected in function_bad.own");
    assert_eq!(
        bad_analyzer.errors.len(),
        2,
        "Expected 2 errors in function_bad.own, got: {:?}",
        bad_analyzer.errors
    );
    assert!(bad_analyzer
        .errors
        .iter()
        .any(|e| e.contains("Type mismatch in variable declaration 'result'")));
    assert!(bad_analyzer.errors.iter().any(|e| e.contains("Type mismatch in return statement")));
}

#[test]
fn analysis_reports_each_kind_of_error() {
    let analyzer = analyze_statements(vec![
        let_var("x", "number", None),
        let_var("x", "int", None),
        assign("y", Expression::Int(1)),
        Statement::Return(None),
        Statement::ExpressionStatement(Expression::FunctionCall(Box::new(
            lib::parser::models::expression::FunctionCall { name: "f".to_string(), arguments: vec![] },
        ))),
    ]);
    assert_eq!(
        analyzer.errors,
        vec![
            "Type 'number' is not defined.".to_string(),
            "Symbol 'x' already defined in the current scope.".to_string(),
            "Undefined variable 'y'.".to_string(),
            "Return statement not inside a function.".to_string(),
            "Undefined function 'f'.".to_string(),
        ]
    );
}

#[test]
fn block_declarations_do_not_leak() {
    let analyzer = analyze_statements(vec![
        Statement::If(IfStatement {
            condition: Expression::Bool(true),
            then_branch: vec![let_var("inner", "int", Some(Expression::Int(1)))],
            else_branch: None,
        }),
        assign("inner", Expression::Int(2)),
    ]);
    assert_eq!(analyzer.errors, vec!["Undefined variable 'inner'.".to_string()]);
}

#[test]
fn inner_declaration_shadows_outer_one() {
    let analyzer = analyze_statements(vec![
        let_var("x", "int", Some(Expression::Int(1))),
        Statement::While(WhileStatement {
            condition: Expression::Bool(true),
            body: vec![
                let_var("x", "string", Some(string("s"))),
                assign("x", string("t")),
            ],
        }),
        assign("x", Expression::Int(3)),
    ]);
    assert!(analyzer.errors.is_empty(), "got {:?}", analyzer.errors);
}

#[test]
fn binary_and_call_errors() {
    let analyzer = analyze_statements(vec![
        function("two", &[("a", "int")], "int", vec![Statement::Return(Some(Expression::Int(2)))]),
        let_var("s", "string", Some(binary(Expression::Int(1), "+", string("a")))),
        let_var("t", "int", Some(binary(Expression::Int(1), "%", Expression::Int(2)))),
        Statement::ExpressionStatement(Expression::FunctionCall(Box::new(
            lib::parser::models::expression::FunctionCall { name: "two".to_string(), arguments: vec![] },
        ))),
        Statement::ExpressionStatement(Expression::FunctionCall(Box::new(
            lib::parser::models::expression::FunctionCall { name: "s".to_string(), arguments: vec![] },
        ))),
    ]);
    assert_eq!(
        analyzer.errors,
        vec![
            "Type mismatch in binary expression: 'int' and 'string'.".to_string(),
            "Unknown binary operator '%'.".to_string(),
            "Function 'two' expects 1 arguments, but 0 were provided.".to_string(),
            "'s' is not a function.".to_string(),
        ]
    );
}

#[test]
fn print_is_built_in() {
    let analyzer = analyze_statements(vec![
        Statement::ExpressionStatement(Expression::FunctionCall(Box::new(
            lib::parser::models::expression::FunctionCall { name: "print".to_string(), arguments: vec![Expression::Int(1)] },
        ))),
        Statement::ExpressionStatement(Expression::FunctionCall(Box::new(
            lib::parser::models::expression::FunctionCall { name: "print".to_string(), arguments: vec![ident("missing")] },
        ))),
    ]);
    assert_eq!(analyzer.errors, vec!["Undefined variable 'missing'.".to_string()]);
}
