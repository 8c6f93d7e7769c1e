//! What the code generator emits for each construct, over a model of its
//! state.

use vstd::prelude::*;

use crate::codegen::models::assembly::{AssemblyView, SectionView};
use crate::parser::models::expression::ExprView;
use crate::parser::models::statement::StmtView;
use crate::text::{int_text, nat_text};

verus! {

/// What the code generator knows: the program so far, the number of labels
/// and of `for` loops made, the next local slot, whether a function body is
/// being generated, the stack offsets of local names (the last one given to
/// a name counts), the labels of string literals, the loop variable being
/// renamed, and the section being filled.
pub struct GenView {
    pub program: AssemblyView,
    pub labels: nat,
    pub local_offset: int,
    pub in_function: bool,
    pub locals: Seq<(Seq<char>, int)>,
    pub literals: Seq<(Seq<char>, Seq<char>)>,
    pub loops: nat,
    pub loop_var: Option<(Seq<char>, Seq<char>)>,
    pub current: SectionView,
}

/// The state with `line` appended to the current section.
pub open spec fn emit(g: GenView, line: Seq<char>) -> GenView {
    GenView { current: SectionView { name: g.current.name, code: g.current.code.push(line) }, ..g }
}

/// The name of the label numbered `n`.
pub open spec fn label_name(n: nat) -> Seq<char> {
    "L"@ + nat_text(n)
}

/// The state once `count` more labels were made.
pub open spec fn take_labels(g: GenView, count: nat) -> GenView {
    GenView { labels: g.labels + count, ..g }
}

/// The label of a string literal, if it has one: the first one given to it.
pub open spec fn find_literal(literals: Seq<(Seq<char>, Seq<char>)>, s: Seq<char>) -> Option<
    Seq<char>,
>
    decreases literals.len(),
{
    if literals.len() == 0 {
        None
    } else if literals[0].0 == s {
        Some(literals[0].1)
    } else {
        find_literal(literals.drop_first(), s)
    }
}

/// The label of a string literal, made from the number of literals known
/// when the literal is new.
pub open spec fn literal_label(g: GenView, s: Seq<char>) -> (Seq<char>, GenView) {
    match find_literal(g.literals, s) {
        Some(l) => (l, g),
        None => {
            let l = "str_"@ + nat_text(g.literals.len());
            (l, GenView { literals: g.literals.push((s, l)), ..g })
        },
    }
}

/// The stack offset last given to `name`, if any.
pub open spec fn find_local(locals: Seq<(Seq<char>, int)>, name: Seq<char>) -> Option<int>
    decreases locals.len(),
{
    if locals.len() == 0 {
        None
    } else if locals.last().0 == name {
        Some(locals.last().1)
    } else {
        find_local(locals.drop_last(), name)
    }
}

/// Stores `rax` at a stack offset.
pub open spec fn store_line(off: int) -> Seq<char> {
    if off < 0 {
        "    mov [rbp - "@ + int_text(-off) + "], rax"@
    } else {
        "    mov [rbp + "@ + int_text(off) + "], rax"@
    }
}

/// Loads `rax` from a stack offset.
pub open spec fn load_line(off: int) -> Seq<char> {
    if off >= 0 {
        "    mov rax, [rbp + "@ + int_text(off) + "]"@
    } else {
        "    mov rax, [rbp - "@ + int_text(-off) + "]"@
    }
}

/// Stores `rax` in the global named `name`.
pub open spec fn global_store_line(name: Seq<char>) -> Seq<char> {
    "    mov ["@ + name + "], rax"@
}

/// Loads a name into `rax`: the renamed loop variable, a local, or a
/// global.
pub open spec fn ident_load_line(g: GenView, name: Seq<char>) -> Seq<char> {
    match g.loop_var {
        Some(v) if v.0 == name => "    mov rax, ["@ + v.1 + "]"@,
        _ => match find_local(g.locals, name) {
            Some(off) => load_line(off),
            None => "    mov rax, ["@ + name + "]"@,
        },
    }
}

/// A comparison of `rax` with `rbx` whose flag `set_line` turns into 0 or 1.
pub open spec fn emit_comparison(g: GenView, set_line: Seq<char>) -> GenView {
    emit(emit(emit(g, "    cmp rax, rbx"@), set_line), "    movzx rax, al"@)
}

/// The instructions of a binary operator on `rax` (left) and `rbx` (right).
pub open spec fn emit_operator(g: GenView, op: Seq<char>) -> GenView {
    if op == "+"@ {
        emit(g, "    add rax, rbx"@)
    } else if op == "-"@ {
        emit(g, "    sub rax, rbx"@)
    } else if op == "*"@ {
        emit(g, "    imul rax, rbx"@)
    } else if op == "/"@ {
        emit(emit(g, "    cqo"@), "    idiv rbx"@)
    } else if op == "=="@ {
        emit_comparison(g, "    sete al"@)
    } else if op == "!="@ {
        emit_comparison(g, "    setne al"@)
    } else if op == "<"@ {
        emit_comparison(g, "    setl al"@)
    } else if op == "<="@ {
        emit_comparison(g, "    setle al"@)
    } else if op == ">"@ {
        emit_comparison(g, "    setg al"@)
    } else if op == ">="@ {
        emit_comparison(g, "    setge al"@)
    } else if op == "&&"@ {
        emit(g, "    and rax, rbx"@)
    } else if op == "||"@ {
        emit(g, "    or rax, rbx"@)
    } else if op == "%"@ {
        emit(emit(emit(g, "    cqo"@), "    idiv rbx"@), "    mov rax, rdx"@)
    } else {
        emit(g, "    ; Unsupported binary operator"@)
    }
}

/// The code of an expression, which leaves its value in `rax`. A call of
/// `print` with one argument prints it with `printf`, and does nothing with
/// another number of arguments; another call pushes its arguments and calls
/// the function's label.
pub open spec fn gen_expr(g: GenView, e: ExprView) -> GenView
    decreases e,
{
    match e {
        ExprView::Str(s) => {
            let (l, g1) = literal_label(g, s);
            emit(g1, "    lea rax, [rel "@ + l + "]"@)
        },
        ExprView::Int(v) => emit(g, "    mov rax, "@ + int_text(v as int)),
        ExprView::Float(t) => emit(g, "    mov rax, "@ + t),
        ExprView::Bool(b) => emit(
            g,
            if b {
                "    mov rax, 1"@
            } else {
                "    mov rax, 0"@
            },
        ),
        ExprView::Ident(name) => emit(g, ident_load_line(g, name)),
        ExprView::Binary(l, op, r) => {
            let g1 = emit(gen_expr(g, *l), "    push rax"@);
            let g2 = emit(emit(gen_expr(g1, *r), "    pop rbx"@), "    xchg rax, rbx"@);
            emit_operator(g2, op)
        },
        ExprView::Call(name, args) => if name == "print"@ {
            if args.len() == 1 {
                emit(
                    emit(
                        emit(emit(gen_expr(g, args[0]), "    lea rdi, [rel format]"@), "    mov rsi, rax"@),
                        "    xor rax, rax"@,
                    ),
                    "    call printf"@,
                )
            } else {
                g
            }
        } else {
            let g1 = emit(gen_args(g, args), "    call f_"@ + name);
            if args.len() > 0 {
                emit(g1, "    add rsp, "@ + nat_text(8 * args.len()))
            } else {
                g1
            }
        },
    }
}

/// The code of call arguments, each pushed once computed, in order.
pub open spec fn gen_args(g: GenView, args: Seq<ExprView>) -> GenView
    decreases args,
{
    if args.len() == 0 {
        g
    } else {
        emit(gen_expr(gen_args(g, args.drop_last()), args.last()), "    push rax"@)
    }
}

/// The epilogue of a function: restores the stack and returns.
pub open spec fn emit_epilogue(g: GenView) -> GenView {
    emit(emit(emit(g, "    mov rsp, rbp"@), "    pop rbp"@), "    ret"@)
}

/// A local variable declaration inside a function: its value (0 when it
/// has none) is stored in its stack slot, a new one when the name has none.
pub open spec fn gen_local_decl(g: GenView, name: Seq<char>, init: Option<ExprView>) -> GenView {
    let g1 = match init {
        Some(x) => gen_expr(g, x),
        None => emit(g, "    mov rax, 0"@),
    };
    match find_local(g1.locals, name) {
        None => {
            let g2 = GenView { locals: g1.locals.push((name, -g1.local_offset)), ..g1 };
            let g3 = emit(g2, "    mov [rbp - "@ + int_text(g1.local_offset) + "], rax"@);
            GenView { local_offset: g3.local_offset + 4, ..g3 }
        },
        Some(off) => emit(g1, store_line(off)),
    }
}

/// The instruction that stores `rax` in the variable `name`: the renamed
/// loop variable, a local inside a function, or else the global of that
/// name.
pub open spec fn store_target_line(g: GenView, name: Seq<char>) -> Seq<char> {
    match g.loop_var {
        Some(v) if v.0 == name => "    mov ["@ + v.1 + "], rax"@,
        _ => if g.in_function {
            match find_local(g.locals, name) {
                Some(off) => store_line(off),
                None => global_store_line(name),
            }
        } else {
            global_store_line(name)
        },
    }
}

/// The name a `for` loop gives its variable `name`: the name followed by
/// the loop's number, as `i1` for `i` in the first loop.
pub open spec fn loop_var_name(name: Seq<char>, n: nat) -> Seq<char> {
    name + nat_text(n)
}

/// The initialisation of a `for` loop: a declared loop variable becomes a
/// global of its own, reserved in the bss section; another statement is
/// generated as it is.
pub open spec fn gen_for_init(g: GenView, init: StmtView) -> GenView
    decreases init, 2nat,
{
    match init {
        StmtView::VarDeclaration { name, declared_type: _, init: value } => {
            let n = g.loops + 1;
            let internal = loop_var_name(name, n);
            let ga = GenView { loops: n, loop_var: Some((name, internal)), ..g };
            let gb = match value {
                Some(x) => gen_expr(ga, x),
                None => emit(ga, "    mov rax, 0"@),
            };
            let gc = emit(gb, "    mov ["@ + internal + "], rax"@);
            GenView {
                program: AssemblyView {
                    bss: gc.program.bss.push("    "@ + internal + " resq 1"@),
                    ..gc.program
                },
                ..gc
            }
        },
        _ => gen_stmt(g, init),
    }
}

/// The stack offsets of parameters: where a call, which pushes its
/// arguments in order, 8 bytes each, before the return address and the
/// saved frame base, left them. The last one is at 16 bytes above the frame
/// base, each earlier one 8 further.
pub open spec fn param_slots(params: Seq<(Seq<char>, Seq<char>)>) -> Seq<(Seq<char>, int)> {
    Seq::new(params.len(), |k: int| (params[k].0, 16 + 8 * (params.len() - 1 - k)))
}

/// The code of a statement. A declaration outside a function emits nothing
/// (globals are reserved by `gen_program`); conditions and loops jump on
/// `rax` being 0; a function is generated in a section of its own.
pub open spec fn gen_stmt(g: GenView, s: StmtView) -> GenView
    decreases s, 1nat,
{
    match s {
        StmtView::VarDeclaration { name, declared_type: _, init } => if g.in_function {
            gen_local_decl(g, name, init)
        } else {
            g
        },
        StmtView::VarAffection { name, value } => {
            let g1 = gen_expr(g, value);
            emit(g1, store_target_line(g1, name))
        },
        StmtView::ExpressionStatement { expr } => gen_expr(g, expr),
        StmtView::Return { value } => emit_epilogue(
            match value {
                Some(x) => gen_expr(g, x),
                None => g,
            },
        ),
        StmtView::If { condition, then_branch, else_branch } => {
            let g1 = gen_expr(g, condition);
            let else_label = label_name(g1.labels);
            let end_label = label_name(g1.labels + 1);
            let g2 = emit(emit(take_labels(g1, 2), "    cmp rax, 0"@), "    je "@ + else_label);
            let g3 = emit(emit(gen_stmts(g2, then_branch), "    jmp "@ + end_label), else_label + ":"@);
            let g4 = match else_branch {
                Some(b) => gen_stmts(g3, b),
                None => g3,
            };
            emit(g4, end_label + ":"@)
        },
        StmtView::For { init, cond, incr, body } => {
            let g1 = gen_for_init(g, *init);
            let start = label_name(g1.labels);
            let g2 = emit(take_labels(g1, 1), start + ":"@);
            let g3 = match *cond {
                StmtView::ExpressionStatement { expr } => {
                    let ga = gen_expr(g2, expr);
                    let exit_label = label_name(ga.labels);
                    let gb = emit(emit(take_labels(ga, 1), "    cmp rax, 0"@), "    je "@ + exit_label);
                    let gc = gen_stmt(gen_stmts(gb, body), *incr);
                    emit(emit(gc, "    jmp "@ + start), exit_label + ":"@)
                },
                _ => emit(g2, "    ; For-loop condition must be an expression statement"@),
            };
            GenView { loop_var: None, ..g3 }
        },
        StmtView::While { condition, body } => {
            let start = label_name(g.labels);
            let g1 = gen_expr(emit(take_labels(g, 1), start + ":"@), condition);
            let exit_label = label_name(g1.labels);
            let g2 = emit(emit(take_labels(g1, 1), "    cmp rax, 0"@), "    je "@ + exit_label);
            emit(emit(gen_stmts(g2, body), "    jmp "@ + start), exit_label + ":"@)
        },
        StmtView::Switch { condition, cases, default } => {
            let g1 = gen_expr(g, condition);
            let end_label = label_name(g1.labels);
            let g2 = gen_cases(take_labels(g1, 1), condition, end_label, cases);
            let g3 = match default {
                Some(b) => gen_stmts(g2, b),
                None => g2,
            };
            emit(g3, end_label + ":"@)
        },
        StmtView::FunctionDeclaration { name, parameters, return_type: _, body } => {
            let ga = GenView { current: SectionView { name: "f_"@ + name + ":"@, code: seq![] }, ..g };
            let gb = emit(emit(emit(ga, "    push rbp"@), "    mov rbp, rsp"@), "    sub rsp, 16"@);
            let gc = GenView {
                locals: gb.locals + param_slots(parameters),
                in_function: true,
                local_offset: 4,
                ..gb
            };
            let gd = emit_epilogue(gen_stmts(gc, body));
            GenView {
                program: AssemblyView { sections: gd.program.sections.push(gd.current), ..gd.program },
                current: g.current,
                in_function: false,
                locals: seq![],
                ..gd
            }
        },
    }
}

/// The code of statements, in order.
pub open spec fn gen_stmts(g: GenView, ss: Seq<StmtView>) -> GenView
    decreases ss, 1nat,
{
    if ss.len() == 0 {
        g
    } else {
        gen_stmt(gen_stmts(g, ss.drop_last()), ss.last())
    }
}

/// The code of the cases of a switch on `condition`: each case compares the
/// condition, computed again, with its value, runs its body and jumps to
/// `end_label`, or else goes on with the next case.
pub open spec fn gen_cases(
    g: GenView,
    condition: ExprView,
    end_label: Seq<char>,
    cases: Seq<(ExprView, Seq<StmtView>)>,
) -> GenView
    decreases cases, 1nat,
{
    if cases.len() == 0 {
        g
    } else {
        let g0 = gen_cases(g, condition, end_label, cases.drop_last());
        let case_label = label_name(g0.labels);
        let g1 = gen_expr(take_labels(g0, 1), cases.last().0);
        let g2 = gen_expr(emit(g1, "    mov rbx, rax"@), condition);
        let g3 = emit(emit(g2, "    cmp rax, rbx"@), "    jne "@ + case_label);
        let g4 = gen_stmts(g3, cases.last().1);
        emit(emit(g4, "    jmp "@ + end_label), case_label + ":"@)
    }
}

/// The size of a statement, as far as the generator's counters go: one for
/// the statement, one per parameter of a function and per case of a switch,
/// and the sizes of the statements it holds.
pub open spec fn stmt_size(s: StmtView) -> nat
    decreases s,
{
    match s {
        StmtView::If { condition: _, then_branch, else_branch } => 1 + stmts_size(then_branch) + match else_branch {
            Some(b) => stmts_size(b),
            None => 0,
        },
        StmtView::For { init, cond: _, incr, body } => 1 + stmt_size(*init) + stmt_size(*incr) + stmts_size(body),
        StmtView::While { condition: _, body } => 1 + stmts_size(body),
        StmtView::Switch { condition: _, cases, default } => 1 + cases_size(cases) + match default {
            Some(b) => stmts_size(b),
            None => 0,
        },
        StmtView::FunctionDeclaration { name: _, parameters, return_type: _, body } => 1
            + parameters.len() + stmts_size(body),
        _ => 1,
    }
}

/// The sum of the sizes of statements.
pub open spec fn stmts_size(ss: Seq<StmtView>) -> nat
    decreases ss,
{
    if ss.len() == 0 {
        0
    } else {
        stmts_size(ss.drop_last()) + stmt_size(ss.last())
    }
}

/// The sizes of the cases of a switch: one for each, and its body.
pub open spec fn cases_size(cases: Seq<(ExprView, Seq<StmtView>)>) -> nat
    decreases cases,
{
    if cases.len() == 0 {
        0
    } else {
        cases_size(cases.drop_last()) + 1 + stmts_size(cases.last().1)
    }
}

/// Whether the generator's counters can take code of size `n` without
/// overflowing: two labels, one loop and one local slot of 4 bytes per unit
/// of size, and parameter slots of 8 bytes from 16 bytes on.
pub open spec fn fits(g: GenView, n: nat) -> bool {
    &&& 4 <= g.local_offset
    &&& g.local_offset + 8 * n + 16 <= i32::MAX
    &&& g.labels + 2 * n <= usize::MAX
    &&& g.loops + n <= usize::MAX
}

/// Whether generating code of size `n` took `before` to `after` within the
/// counters' budget of `fits`: the label and loop counters only grow.
pub open spec fn within_budget(before: GenView, after: GenView, n: nat) -> bool {
    &&& 4 <= after.local_offset <= before.local_offset + 4 * n
    &&& before.labels <= after.labels <= before.labels + 2 * n
    &&& before.loops <= after.loops <= before.loops + n
}

/// Whether `after` has the counters, the locals, the loop variable, the
/// program and the section name of `before`: only code and string literals
/// were added.
pub open spec fn same_frame(before: GenView, after: GenView) -> bool {
    &&& after.program == before.program
    &&& after.labels == before.labels
    &&& after.local_offset == before.local_offset
    &&& after.in_function == before.in_function
    &&& after.locals == before.locals
    &&& after.loops == before.loops
    &&& after.loop_var == before.loop_var
    &&& after.current.name == before.current.name
}

/// Generating an expression only adds code and string literals.
pub proof fn lemma_expr_same_frame(g: GenView, e: ExprView)
    ensures
        same_frame(g, gen_expr(g, e)),
    decreases e,
{
    match e {
        ExprView::Binary(l, op, r) => {
            lemma_expr_same_frame(g, *l);
            let g1 = emit(gen_expr(g, *l), "    push rax"@);
            lemma_expr_same_frame(g1, *r);
        },
        ExprView::Call(name, args) => {
            if name == "print"@ {
                if args.len() == 1 {
                    lemma_expr_same_frame(g, args[0]);
                }
            } else {
                lemma_args_same_frame(g, args);
            }
        },
        _ => {},
    }
}

/// Generating call arguments only adds code and string literals.
pub proof fn lemma_args_same_frame(g: GenView, args: Seq<ExprView>)
    ensures
        same_frame(g, gen_args(g, args)),
    decreases args,
{
    if args.len() > 0 {
        lemma_args_same_frame(g, args.drop_last());
        lemma_expr_same_frame(gen_args(g, args.drop_last()), args.last());
    }
}

/// Budgets add up.
pub proof fn lemma_budget_trans(a: GenView, b: GenView, c: GenView, n: nat, m: nat)
    requires
        within_budget(a, b, n),
        within_budget(b, c, m),
    ensures
        within_budget(a, c, n + m),
{
}

/// What is left of the counters' room once a budget was used.
pub proof fn lemma_fits_after(a: GenView, b: GenView, n: nat, m: nat)
    requires
        fits(a, n + m),
        within_budget(a, b, n),
    ensures
        fits(b, m),
{
}

/// Generating a statement stays within the budget of its size.
pub proof fn lemma_stmt_budget(g: GenView, s: StmtView)
    requires
        4 <= g.local_offset,
    ensures
        within_budget(g, gen_stmt(g, s), stmt_size(s)),
    decreases s, 1nat,
{
    let r = gen_stmt(g, s);
    match s {
        StmtView::VarDeclaration { name, declared_type: _, init } => {
            match init {
                Some(x) => lemma_expr_same_frame(g, x),
                None => {},
            }
        },
        StmtView::VarAffection { name, value } => {
            lemma_expr_same_frame(g, value);
        },
        StmtView::ExpressionStatement { expr } => {
            lemma_expr_same_frame(g, expr);
        },
        StmtView::Return { value } => {
            match value {
                Some(x) => lemma_expr_same_frame(g, x),
                None => {},
            }
        },
        StmtView::If { condition, then_branch, else_branch } => {
            lemma_expr_same_frame(g, condition);
            let g1 = gen_expr(g, condition);
            let else_label = label_name(g1.labels);
            let end_label = label_name(g1.labels + 1);
            let g2 = emit(emit(take_labels(g1, 2), "    cmp rax, 0"@), "    je "@ + else_label);
            lemma_stmts_budget(g2, then_branch);
            let g3 = emit(emit(gen_stmts(g2, then_branch), "    jmp "@ + end_label), else_label + ":"@);
            match else_branch {
                Some(b) => {
                    lemma_stmts_budget(g3, b);
                },
                None => {},
            }
        },
        StmtView::For { init, cond, incr, body } => {
            lemma_for_init_budget(g, *init);
            let g1 = gen_for_init(g, *init);
            let start = label_name(g1.labels);
            let g2 = emit(take_labels(g1, 1), start + ":"@);
            match *cond {
                StmtView::ExpressionStatement { expr } => {
                    lemma_expr_same_frame(g2, expr);
                    let ga = gen_expr(g2, expr);
                    let exit_label = label_name(ga.labels);
                    let gb = emit(emit(take_labels(ga, 1), "    cmp rax, 0"@), "    je "@ + exit_label);
                    lemma_stmts_budget(gb, body);
                    lemma_stmt_budget(gen_stmts(gb, body), *incr);
                },
                _ => {},
            }
        },
        StmtView::While { condition, body } => {
            let start = label_name(g.labels);
            let g0 = emit(take_labels(g, 1), start + ":"@);
            lemma_expr_same_frame(g0, condition);
            let g1 = gen_expr(g0, condition);
            let exit_label = label_name(g1.labels);
            let g2 = emit(emit(take_labels(g1, 1), "    cmp rax, 0"@), "    je "@ + exit_label);
            lemma_stmts_budget(g2, body);
        },
        StmtView::Switch { condition, cases, default } => {
            lemma_expr_same_frame(g, condition);
            let g1 = gen_expr(g, condition);
            let end_label = label_name(g1.labels);
            lemma_cases_budget(take_labels(g1, 1), condition, end_label, cases);
            let g2 = gen_cases(take_labels(g1, 1), condition, end_label, cases);
            match default {
                Some(b) => {
                    lemma_stmts_budget(g2, b);
                },
                None => {},
            }
        },
        StmtView::FunctionDeclaration { name, parameters, return_type: _, body } => {
            let ga = GenView { current: SectionView { name: "f_"@ + name + ":"@, code: seq![] }, ..g };
            let gb = emit(emit(emit(ga, "    push rbp"@), "    mov rbp, rsp"@), "    sub rsp, 16"@);
            let gc = GenView {
                locals: gb.locals + param_slots(parameters),
                in_function: true,
                local_offset: 4,
                ..gb
            };
            lemma_stmts_budget(gc, body);
        },
    }
}

/// Generating statements stays within the budget of their sizes.
pub proof fn lemma_stmts_budget(g: GenView, ss: Seq<StmtView>)
    requires
        4 <= g.local_offset,
    ensures
        within_budget(g, gen_stmts(g, ss), stmts_size(ss)),
    decreases ss, 1nat,
{
    if ss.len() > 0 {
        lemma_stmts_budget(g, ss.drop_last());
        let g0 = gen_stmts(g, ss.drop_last());
        lemma_stmt_budget(g0, ss.last());
        lemma_budget_trans(g, g0, gen_stmts(g, ss), stmts_size(ss.drop_last()), stmt_size(ss.last()));
    }
}

/// Generating the cases of a switch stays within the budget of their
/// sizes.
pub proof fn lemma_cases_budget(
    g: GenView,
    condition: ExprView,
    end_label: Seq<char>,
    cases: Seq<(ExprView, Seq<StmtView>)>,
)
    requires
        4 <= g.local_offset,
    ensures
        within_budget(g, gen_cases(g, condition, end_label, cases), cases_size(cases)),
    decreases cases, 1nat,
{
    if cases.len() > 0 {
        lemma_cases_budget(g, condition, end_label, cases.drop_last());
        let g0 = gen_cases(g, condition, end_label, cases.drop_last());
        let case_label = label_name(g0.labels);
        lemma_expr_same_frame(take_labels(g0, 1), cases.last().0);
        let g1 = gen_expr(take_labels(g0, 1), cases.last().0);
        lemma_expr_same_frame(emit(g1, "    mov rbx, rax"@), condition);
        let g2 = gen_expr(emit(g1, "    mov rbx, rax"@), condition);
        let g3 = emit(emit(g2, "    cmp rax, rbx"@), "    jne "@ + case_label);
        lemma_stmts_budget(g3, cases.last().1);
    }
}

/// Generating the initialisation of a `for` stays within the budget of its
/// size.
pub proof fn lemma_for_init_budget(g: GenView, init: StmtView)
    requires
        4 <= g.local_offset,
    ensures
        within_budget(g, gen_for_init(g, init), stmt_size(init)),
    decreases init, 2nat,
{
    match init {
        StmtView::VarDeclaration { name, declared_type: _, init: value } => {
            let n = g.loops + 1;
            let ga = GenView { loops: n, loop_var: Some((name, loop_var_name(name, n))), ..g };
            match value {
                Some(x) => lemma_expr_same_frame(ga, x),
                None => {},
            }
        },
        _ => {
            lemma_stmt_budget(g, init);
        },
    }
}

/// The statements before position `i` are no bigger than all of them, and
/// one more statement adds its size.
pub proof fn lemma_stmts_size_prefix(ss: Seq<StmtView>, i: int)
    requires
        0 <= i <= ss.len(),
    ensures
        stmts_size(ss.take(i)) <= stmts_size(ss),
        i < ss.len() ==> stmts_size(ss.take(i + 1)) == stmts_size(ss.take(i)) + stmt_size(ss[i]),
    decreases ss.len(),
{
    if i < ss.len() {
        assert(ss.take(i + 1).drop_last() =~= ss.take(i));
        lemma_stmts_size_prefix(ss.drop_last(), i);
        assert(ss.drop_last().take(i) =~= ss.take(i));
    } else {
        assert(ss.take(i) =~= ss);
    }
}

/// The cases before position `i` are no bigger than all of them, and one
/// more case adds its size.
pub proof fn lemma_cases_size_prefix(cases: Seq<(ExprView, Seq<StmtView>)>, i: int)
    requires
        0 <= i <= cases.len(),
    ensures
        cases_size(cases.take(i)) <= cases_size(cases),
        i < cases.len() ==> cases_size(cases.take(i + 1)) == cases_size(cases.take(i)) + 1
            + stmts_size(cases[i].1),
    decreases cases.len(),
{
    if i < cases.len() {
        assert(cases.take(i + 1).drop_last() =~= cases.take(i));
        lemma_cases_size_prefix(cases.drop_last(), i);
        assert(cases.drop_last().take(i) =~= cases.take(i));
    } else {
        assert(cases.take(i) =~= cases);
    }
}

/// The global variables of a program: its top-level declarations, with
/// their initial values, in order.
pub open spec fn global_decls(ss: Seq<StmtView>) -> Seq<(Seq<char>, Option<ExprView>)>
    decreases ss.len(),
{
    if ss.len() == 0 {
        Seq::empty()
    } else {
        let rest = global_decls(ss.drop_last());
        match ss.last() {
            StmtView::VarDeclaration { name, declared_type: _, init } => rest.push((name, init)),
            _ => rest,
        }
    }
}

/// The data lines of string literals: each label with its text.
pub open spec fn data_lines(literals: Seq<(Seq<char>, Seq<char>)>) -> Seq<Seq<char>> {
    literals.map_values(|p: (Seq<char>, Seq<char>)| "    "@ + p.1 + ": db \""@ + p.0 + "\", 0"@)
}

/// The bss lines that reserve a quadword for each global.
pub open spec fn bss_lines(globals: Seq<(Seq<char>, Option<ExprView>)>) -> Seq<Seq<char>> {
    globals.map_values(|d: (Seq<char>, Option<ExprView>)| "    "@ + d.0 + " resq 1"@)
}

/// The code that gives the globals that have one their initial value.
pub open spec fn gen_global_inits(g: GenView, globals: Seq<(Seq<char>, Option<ExprView>)>) -> GenView
    decreases globals.len(),
{
    if globals.len() == 0 {
        g
    } else {
        let g0 = gen_global_inits(g, globals.drop_last());
        match globals.last().1 {
            Some(x) => emit(gen_expr(g0, x), global_store_line(globals.last().0)),
            None => g0,
        }
    }
}

/// The code of the top-level statements but the declarations, in order.
pub open spec fn gen_top_level(g: GenView, ss: Seq<StmtView>) -> GenView
    decreases ss.len(),
{
    if ss.len() == 0 {
        g
    } else {
        let g0 = gen_top_level(g, ss.drop_last());
        if ss.last() is VarDeclaration {
            g0
        } else {
            gen_stmt(g0, ss.last())
        }
    }
}

/// The whole program: the bss section with the globals (none when a
/// function is being generated), the text section that jumps to `f_main`,
/// the `f_main` section, which initialises the globals, runs the other
/// top-level statements and exits, and, written once all the code is
/// generated, the data section with the `printf` format and every string
/// literal the code uses.
pub open spec fn gen_program(g: GenView, ss: Seq<StmtView>) -> GenView {
    let globals = if g.in_function {
        Seq::empty()
    } else {
        global_decls(ss)
    };
    let p = g.program;
    let program = AssemblyView {
        data: p.data,
        bss: p.bss + seq!["section .bss"@] + bss_lines(globals),
        text: p.text + seq![
            "section .text"@,
            "global _start"@,
            "extern printf"@,
            Seq::<char>::empty(),
            "_start:"@,
            "    jmp f_main"@,
        ],
        sections: p.sections,
    };
    let g1 = GenView { program, current: SectionView { name: "f_main:"@, code: seq![] }, ..g };
    let g2 = gen_top_level(gen_global_inits(g1, globals), ss);
    let g3 = emit(emit(emit(g2, "    mov rax, 60"@), "    xor rdi, rdi"@), "    syscall"@);
    GenView {
        program: AssemblyView {
            data: g3.program.data + seq!["section .data"@, "    format: db \"%d\", 10, 0"@]
                + data_lines(g3.literals),
            sections: g3.program.sections.push(g3.current),
            ..g3.program
        },
        current: SectionView { name: Seq::empty(), code: seq![] },
        ..g3
    }
}

/// Initialising globals only adds code and string literals.
pub proof fn lemma_global_inits_same_frame(g: GenView, globals: Seq<(Seq<char>, Option<ExprView>)>)
    ensures
        same_frame(g, gen_global_inits(g, globals)),
    decreases globals.len(),
{
    if globals.len() > 0 {
        lemma_global_inits_same_frame(g, globals.drop_last());
        let g0 = gen_global_inits(g, globals.drop_last());
        match globals.last().1 {
            Some(x) => lemma_expr_same_frame(g0, x),
            None => {},
        }
    }
}

} // verus!
