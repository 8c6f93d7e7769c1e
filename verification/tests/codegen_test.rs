use lib::codegen::codegen::CodeGenerator;
use lib::codegen::models::assembly::{SectionCode, ASM};
use lib::parser::models::ast::AST;
use lib::parser::models::expression::{BinaryExpression, Expression, FunctionCall};
use lib::parser::models::statement::{
    ForStatement, FunctionDeclaration, IfStatement, Parameter, Statement, SwitchCase,
    SwitchStatement, VarAffection, VarDeclaration, WhileStatement,
};

fn ident(name: &str) -> Expression {
    Expression::Ident(name.to_string())
}

fn binary(left: Expression, op: &str, right: Expression) -> Expression {
    Expression::Binary(Box::new(BinaryExpression { left, op: op.to_string(), right }))
}

fn call(name: &str, arguments: Vec<Expression>) -> Expression {
    Expression::FunctionCall(Box::new(FunctionCall { name: name.to_string(), arguments }))
}

fn let_var(name: &str, init: Option<Expression>) -> Statement {
    Statement::VarDeclaration(VarDeclaration {
        name: name.to_string(),
        declared_type: "int".to_string(),
        init,
    })
}

fn assign(name: &str, value: Expression) -> Statement {
    Statement::VarAffection(VarAffection { name: name.to_string(), value })
}

fn lines(v: &[&str]) -> Vec<String> {
    v.iter().map(|s| s.to_string()).collect()
}

fn generate(statements: Vec<Statement>) -> CodeGenerator {
    let mut generator = CodeGenerator::new();
    generator.generate(&AST { statements });
    generator
}

const HEAD_TEXT: [&str; 6] =
    ["section .text", "global _start", "extern printf", "", "_start:", "    jmp f_main"];

#[test]
fn generates_globals_assignment_and_print() {
    let generator = generate(vec![
        let_var("x", Some(Expression::Int(5))),
        assign("x", binary(ident("x"), "+", Expression::Int(1))),
        Statement::ExpressionStatement(call("print", vec![ident("x")])),
    ]);
    let mut expected = lines(&["section .data", "    format: db \"%d\", 10, 0", ""]);
    expected.extend(lines(&["section .bss", "    x resq 1", ""]));
    expected.extend(lines(&HEAD_TEXT));
    expected.extend(lines(&[
        "",
        "f_main:",
        "    mov rax, 5",
        "    mov [x], rax",
        "    mov rax, [x]",
        "    push rax",
        "    mov rax, 1",
        "    pop rbx",
        "    xchg rax, rbx",
        "    add rax, rbx",
        "    mov [x], rax",
        "    mov rax, [x]",
        "    lea rdi, [rel format]",
        "    mov rsi, rax",
        "    xor rax, rax",
        "    call printf",
        "    mov rax, 60",
        "    xor rdi, rdi",
        "    syscall",
        "",
    ]));
    assert_eq!(generator.assembly.join("\n"), expected.join("\n"));
}

#[test]
fn generates_function_with_parameters_and_locals() {
    let generator = generate(vec![
        Statement::FunctionDeclaration(FunctionDeclaration {
            name: "add".to_string(),
            parameters: vec![
                Parameter { name: "a".to_string(), declared_type: "int".to_string() },
                Parameter { name: "b".to_string(), declared_type: "int".to_string() },
            ],
            return_type: "int".to_string(),
            body: vec![
                let_var("result", Some(binary(ident("a"), "+", ident("b")))),
                Statement::Return(Some(ident("result"))),
            ],
        }),
        Statement::ExpressionStatement(call("add", vec![Expression::Int(1), Expression::Int(2)])),
    ]);
    assert_eq!(generator.assembly.sections_code.len(), 2);
    assert_eq!(generator.assembly.sections_code[0].name, "f_add:");
    assert_eq!(
        generator.assembly.sections_code[0].code,
        lines(&[
            "    push rbp",
            "    mov rbp, rsp",
            "    sub rsp, 16",
            "    mov rax, [rbp + 24]",
            "    push rax",
            "    mov rax, [rbp + 16]",
            "    pop rbx",
            "    xchg rax, rbx",
            "    add rax, rbx",
            "    mov [rbp - 4], rax",
            "    mov rax, [rbp - 4]",
            "    mov rsp, rbp",
            "    pop rbp",
            "    ret",
            "    mov rsp, rbp",
            "    pop rbp",
            "    ret",
        ])
    );
    assert_eq!(generator.assembly.sections_code[1].name, "f_main:");
    assert_eq!(
        generator.assembly.sections_code[1].code,
        lines(&[
            "    mov rax, 1",
            "    push rax",
            "    mov rax, 2",
            "    push rax",
            "    call f_add",
            "    add rsp, 16",
            "    mov rax, 60",
            "    xor rdi, rdi",
            "    syscall",
        ])
    );
    assert!(generator.local_vars.is_empty());
    assert!(!generator.in_function);
}

#[test]
fn parameters_read_the_slots_their_arguments_were_pushed_to() {
    let generator = generate(vec![Statement::FunctionDeclaration(FunctionDeclaration {
        name: "third".to_string(),
        parameters: vec![
            Parameter { name: "a".to_string(), declared_type: "int".to_string() },
            Parameter { name: "b".to_string(), declared_type: "int".to_string() },
            Parameter { name: "c".to_string(), declared_type: "int".to_string() },
        ],
        return_type: "int".to_string(),
        body: vec![
            Statement::ExpressionStatement(ident("a")),
            Statement::ExpressionStatement(ident("b")),
            Statement::ExpressionStatement(ident("c")),
        ],
    })]);
    assert_eq!(generator.assembly.sections_code[0].name, "f_third:");
    let code = &generator.assembly.sections_code[0].code;
    assert_eq!(code[3], "    mov rax, [rbp + 32]");
    assert_eq!(code[4], "    mov rax, [rbp + 24]");
    assert_eq!(code[5], "    mov rax, [rbp + 16]");
}

#[test]
fn generates_if_and_while_with_fresh_labels() {
    let generator = generate(vec![
        Statement::If(IfStatement {
            condition: Expression::Bool(true),
            then_branch: vec![Statement::ExpressionStatement(call(
                "print",
                vec![Expression::Str("hi".to_string())],
            ))],
            else_branch: None,
        }),
        Statement::While(WhileStatement { condition: Expression::Bool(false), body: vec![] }),
    ]);
    assert_eq!(
        generator.assembly.sections_code[0].code,
        lines(&[
            "    mov rax, 1",
            "    cmp rax, 0",
            "    je L0",
            "    lea rax, [rel str_0]",
            "    lea rdi, [rel format]",
            "    mov rsi, rax",
            "    xor rax, rax",
            "    call printf",
            "    jmp L1",
            "L0:",
            "L1:",
            "L2:",
            "    mov rax, 0",
            "    cmp rax, 0",
            "    je L3",
            "    jmp L2",
            "L3:",
            "    mov rax, 60",
            "    xor rdi, rdi",
            "    syscall",
        ])
    );
    assert_eq!(generator.string_literals, vec![("hi".to_string(), "str_0".to_string())]);
    assert_eq!(generator.label_counter, 4);
}

#[test]
fn generates_for_loop_with_renamed_variable() {
    let generator = generate(vec![Statement::For(ForStatement {
        init: Box::new(let_var("i", Some(Expression::Int(0)))),
        cond: Box::new(Statement::ExpressionStatement(binary(ident("i"), "<", Expression::Int(3)))),
        incr: Box::new(assign("i", binary(ident("i"), "+", Expression::Int(1)))),
        body: vec![Statement::ExpressionStatement(call("print", vec![ident("i")]))],
    })]);
    assert_eq!(generator.assembly.section_bss, lines(&["section .bss", "    i1 resq 1"]));
    assert_eq!(
        generator.assembly.sections_code[0].code,
        lines(&[
            "    mov rax, 0",
            "    mov [i1], rax",
            "L0:",
            "    mov rax, [i1]",
            "    push rax",
            "    mov rax, 3",
            "    pop rbx",
            "    xchg rax, rbx",
            "    cmp rax, rbx",
            "    setl al",
            "    movzx rax, al",
            "    cmp rax, 0",
            "    je L1",
            "    mov rax, [i1]",
            "    lea rdi, [rel format]",
            "    mov rsi, rax",
            "    xor rax, rax",
            "    call printf",
            "    mov rax, [i1]",
            "    push rax",
            "    mov rax, 1",
            "    pop rbx",
            "    xchg rax, rbx",
            "    add rax, rbx",
            "    mov [i1], rax",
            "    jmp L0",
            "L1:",
            "    mov rax, 60",
            "    xor rdi, rdi",
            "    syscall",
        ])
    );
    assert!(generator.current_loop_var.is_none());
    assert_eq!(generator.nb_for_boucle, 1);
}

#[test]
fn generates_switch_cases_and_default() {
    let generator = generate(vec![
        let_var("x", Some(Expression::Int(2))),
        Statement::Switch(SwitchStatement {
            condition: ident("x"),
            cases: vec![SwitchCase { value: Expression::Int(1), body: vec![assign("x", Expression::Int(3))] }],
            default: Some(vec![assign("x", Expression::Int(0))]),
        }),
    ]);
    assert_eq!(
        generator.assembly.sections_code[0].code,
        lines(&[
            "    mov rax, 2",
            "    mov [x], rax",
            "    mov rax, [x]",
            "    mov rax, 1",
            "    mov rbx, rax",
            "    mov rax, [x]",
            "    cmp rax, rbx",
            "    jne L1",
            "    mov rax, 3",
            "    mov [x], rax",
            "    jmp L0",
            "L1:",
            "    mov rax, 0",
            "    mov [x], rax",
            "L0:",
            "    mov rax, 60",
            "    xor rdi, rdi",
            "    syscall",
        ])
    );
}

#[test]
fn operators_generate_their_instructions() {
    let ops = ["-", "*", "/", "==", "!=", "<=", ">", ">=", "&&", "||", "%", "^"];
    let expected: [&[&str]; 12] = [
        &["    sub rax, rbx"],
        &["    imul rax, rbx"],
        &["    cqo", "    idiv rbx"],
        &["    cmp rax, rbx", "    sete al", "    movzx rax, al"],
        &["    cmp rax, rbx", "    setne al", "    movzx rax, al"],
        &["    cmp rax, rbx", "    setle al", "    movzx rax, al"],
        &["    cmp rax, rbx", "    setg al", "    movzx rax, al"],
        &["    cmp rax, rbx", "    setge al", "    movzx rax, al"],
        &["    and rax, rbx"],
        &["    or rax, rbx"],
        &["    cqo", "    idiv rbx", "    mov rax, rdx"],
        &["    ; Unsupported binary operator"],
    ];
    for (op, tail) in ops.iter().zip(expected.iter()) {
        let mut generator = CodeGenerator::new();
        generator.generate_expression(&binary(Expression::Int(7), op, Expression::Int(2)));
        let mut want = lines(&["    mov rax, 7", "    push rax", "    mov rax, 2", "    pop rbx", "    xchg rax, rbx"]);
        want.extend(lines(tail));
        assert_eq!(generator.current_section.code, want, "operator {}", op);
    }
}

#[test]
fn same_literal_keeps_its_label() {
    let mut generator = CodeGenerator::new();
    generator.generate_expression(&Expression::Str("a".to_string()));
    generator.generate_expression(&Expression::Str("b".to_string()));
    generator.generate_expression(&Expression::Str("a".to_string()));
    assert_eq!(
        generator.current_section.code,
        lines(&["    lea rax, [rel str_0]", "    lea rax, [rel str_1]", "    lea rax, [rel str_0]"])
    );
    assert_eq!(generator.string_literals.len(), 2);
}

#[test]
fn literals_known_before_generation_go_to_data() {
    let mut generator = CodeGenerator::new();
    generator.generate_expression(&Expression::Str("hello".to_string()));
    generator.generate(&AST { statements: vec![] });
    assert_eq!(
        generator.assembly.section_data,
        lines(&["section .data", "    format: db \"%d\", 10, 0", "    str_0: db \"hello\", 0"])
    );
}

#[test]
fn other_expressions() {
    let mut generator = CodeGenerator::new();
    generator.generate_expression(&Expression::Int(-12));
    generator.generate_expression(&Expression::Float("1.5".to_string()));
    generator.generate_expression(&Expression::Bool(false));
    generator.generate_expression(&call("print", vec![]));
    generator.generate_expression(&call("go", vec![]));
    assert_eq!(
        generator.current_section.code,
        lines(&["    mov rax, -12", "    mov rax, 1.5", "    mov rax, 0", "    call f_go"])
    );
}

#[test]
fn empty_program_joins_with_separators() {
    assert_eq!(ASM::new().join(","), ",,");
    let mut program = ASM::new();
    program.section_data.push("d".to_string());
    let mut section = SectionCode::new("s:".to_string());
    section.code.push("c".to_string());
    program.sections_code.push(section);
    assert_eq!(program.join("|"), "d||||s:|c|");
}

#[test]
fn literals_used_by_the_code_are_defined_in_data() {
    let generator = generate(vec![Statement::VarDeclaration(VarDeclaration {
        name: "s".to_string(),
        declared_type: "string".to_string(),
        init: Some(Expression::Str("hi".to_string())),
    })]);
    assert_eq!(generator.assembly.sections_code[0].code[0], "    lea rax, [rel str_0]");
    assert_eq!(
        generator.assembly.section_data,
        lines(&["section .data", "    format: db \"%d\", 10, 0", "    str_0: db \"hi\", 0"])
    );
}

#[test]
fn for_loop_variable_is_named_after_the_loop_number() {
    let mut generator = CodeGenerator::new();
    generator.generate_statement(&Statement::For(ForStatement {
        init: Box::new(let_var("i", Some(Expression::Int(0)))),
        cond: Box::new(Statement::ExpressionStatement(Expression::Bool(true))),
        incr: Box::new(assign("i", Expression::Int(1))),
        body: vec![],
    }));
    assert_eq!(
        generator.current_section.code,
        lines(&[
            "    mov rax, 0",
            "    mov [i1], rax",
            "L0:",
            "    mov rax, 1",
            "    cmp rax, 0",
            "    je L1",
            "    mov rax, 1",
            "    mov [i1], rax",
            "    jmp L0",
            "L1:",
        ])
    );
    assert_eq!(generator.assembly.section_bss, lines(&["    i1 resq 1"]));
}

#[test]
fn string_literal_labels_are_stable_and_distinct() {
    let mut generator = CodeGenerator::new();
    assert_eq!(generator.get_or_create_string_literal("a"), "str_0");
    assert_eq!(generator.get_or_create_string_literal("b"), "str_1");
    assert_eq!(generator.get_or_create_string_literal("a"), "str_0");
    assert_eq!(generator.new_label(), "L0");
    assert_eq!(generator.new_label(), "L1");
}
