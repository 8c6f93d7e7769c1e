use vstd::prelude::*;

use crate::codegen::emission::{
    data_lines, bss_lines, emit, emit_comparison, emit_epilogue, emit_operator, gen_args,
    gen_global_inits, gen_program, gen_top_level, global_decls, lemma_global_inits_same_frame, gen_cases, gen_for_init, gen_stmts, loop_var_name, param_slots,
    take_labels, find_literal, find_local, gen_expr, gen_local_decl, gen_stmt, ident_load_line, label_name,
    lemma_expr_same_frame, lemma_stmt_budget, literal_label, load_line, stmt_size,
    store_target_line, store_line, GenView,
};
use crate::codegen::models::assembly::{AssemblyView, SectionView};
use crate::parser::models::expression::ExprView;
use crate::parser::models::statement::StmtView;
use crate::text::{digit_char, digit_value, digits_value, int_text, nat_text};

verus! {

proof fn lemma_nat_text_len(n: nat)
    ensures
        nat_text(n).len() >= 1,
        n >= 10 ==> nat_text(n).len() >= 2,
    decreases n,
{
    if n >= 10 {
        lemma_nat_text_len(n / 10);
    }
}

/// Different numbers have different decimal texts.
pub proof fn lemma_nat_text_injective(n: nat, m: nat)
    requires
        nat_text(n) == nat_text(m),
    ensures
        n == m,
    decreases n,
{
    lemma_nat_text_len(n);
    lemma_nat_text_len(m);
    if n >= 10 && m >= 10 {
        assert(nat_text(n).drop_last() =~= nat_text(n / 10));
        assert(nat_text(m).drop_last() =~= nat_text(m / 10));
        assert(digit_char(n % 10) == nat_text(n).last());
        assert(digit_char(m % 10) == nat_text(m).last());
        lemma_nat_text_injective(n / 10, m / 10);
    } else if n < 10 && m < 10 {
        assert(nat_text(n)[0] == digit_char(n));
        assert(nat_text(m)[0] == digit_char(m));
    }
}

proof fn lemma_prefixed_injective(p: Seq<char>, a: Seq<char>, b: Seq<char>)
    requires
        p + a == p + b,
    ensures
        a == b,
{
    assert((p + a).subrange(p.len() as int, (p + a).len() as int) =~= a);
    assert((p + b).subrange(p.len() as int, (p + b).len() as int) =~= b);
}

/// Labels made from different counts are different: no two calls of
/// `new_label` give the same label.
pub proof fn law_labels_distinct(n: nat, m: nat)
    requires
        n != m,
    ensures
        label_name(n) != label_name(m),
{
    if label_name(n) == label_name(m) {
        lemma_prefixed_injective("L"@, nat_text(n), nat_text(m));
        lemma_nat_text_injective(n, m);
    }
}

/// Generating a statement never takes back labels: the code that follows
/// it only gets labels it has not used.
pub proof fn law_labels_only_grow(g: GenView, s: StmtView)
    requires
        4 <= g.local_offset,
    ensures
        g.labels <= gen_stmt(g, s).labels,
{
    lemma_stmt_budget(g, s);
}

/// Whether the labels of string literals are `str_` and their position,
/// with no literal twice.
pub open spec fn literals_wf(lits: Seq<(Seq<char>, Seq<char>)>) -> bool {
    &&& forall|i: int| 0 <= i < lits.len() ==> #[trigger] lits[i].1 == "str_"@ + nat_text(i as nat)
    &&& forall|i: int, j: int| 0 <= i < j < lits.len() ==> #[trigger] lits[i].0 != #[trigger] lits[j].0
}

proof fn lemma_find_literal(lits: Seq<(Seq<char>, Seq<char>)>, s: Seq<char>)
    ensures
        find_literal(lits, s) is None ==> forall|i: int| 0 <= i < lits.len() ==> #[trigger] lits[i].0 != s,
        find_literal(lits, s) matches Some(l) ==> exists|i: int|
            0 <= i < lits.len() && #[trigger] lits[i] == (s, l),
    decreases lits.len(),
{
    if lits.len() > 0 {
        lemma_find_literal(lits.drop_first(), s);
        if find_literal(lits, s) is None {
            assert forall|i: int| 0 <= i < lits.len() implies #[trigger] lits[i].0 != s by {
                if i > 0 {
                    assert(lits[i] == lits.drop_first()[i - 1]);
                }
            }
        } else if lits[0].0 != s {
            let l = find_literal(lits, s)->0;
            let k = choose|k: int| 0 <= k < lits.drop_first().len() && lits.drop_first()[k] == (s, l);
            assert(lits[k + 1] == (s, l));
        } else {
            assert(lits[0] == (s, lits[0].1));
        }
    }
}

/// Asking twice for the label of one string literal gives the same label,
/// and the second time changes nothing.
pub proof fn law_same_literal_same_label(g: GenView, s: Seq<char>)
    ensures
        literal_label(literal_label(g, s).1, s) == (literal_label(g, s).0, literal_label(g, s).1),
{
    let (l, g1) = literal_label(g, s);
    if find_literal(g.literals, s) is None {
        lemma_find_literal(g.literals, s);
        lemma_find_literal_push(g.literals, (s, l), s);
    }
}

proof fn lemma_find_literal_push(
    lits: Seq<(Seq<char>, Seq<char>)>,
    entry: (Seq<char>, Seq<char>),
    s: Seq<char>,
)
    requires
        find_literal(lits, s) is None,
        entry.0 == s,
    ensures
        find_literal(lits.push(entry), s) == Some(entry.1),
    decreases lits.len(),
{
    if lits.len() > 0 {
        assert(lits.push(entry)[0] == lits[0]);
        assert(lits.push(entry).drop_first() =~= lits.drop_first().push(entry));
        lemma_find_literal_push(lits.drop_first(), entry, s);
    } else {
        assert(lits.push(entry)[0] == entry);
    }
}

/// Asking for the label of a string literal keeps the labels of literals
/// `str_` and their position, with no literal twice.
pub proof fn law_literal_label_keeps_wf(g: GenView, s: Seq<char>)
    requires
        literals_wf(g.literals),
    ensures
        literals_wf(literal_label(g, s).1.literals),
{
    lemma_find_literal(g.literals, s);
}

/// Different string literals get different labels.
pub proof fn law_distinct_literals_distinct_labels(g: GenView, s: Seq<char>, t: Seq<char>)
    requires
        literals_wf(g.literals),
        s != t,
    ensures
        literal_label(g, s).0 != literal_label(literal_label(g, s).1, t).0,
{
    let (l1, g1) = literal_label(g, s);
    law_literal_label_keeps_wf(g, s);
    let (l2, g2) = literal_label(g1, t);
    law_literal_label_keeps_wf(g1, t);
    law_same_literal_same_label(g, s);
    lemma_find_literal(g1.literals, s);
    lemma_find_literal(g2.literals, t);
    lemma_find_literal(g2.literals, s);
    let lits = g2.literals;
    // Both literals stand in the final table, at different positions.
    assert(find_literal(g1.literals, s) == Some(l1));
    let i = choose|i: int| 0 <= i < g1.literals.len() && g1.literals[i] == (s, l1);
    assert(find_literal(g2.literals, t) == Some(l2)) by {
        law_same_literal_same_label(g1, t);
    }
    let j = choose|j: int| 0 <= j < lits.len() && lits[j] == (t, l2);
    assert(lits[i] == g1.literals[i]);
    assert(l1 == lits[i].1 && lits[i].1 == "str_"@ + nat_text(i as nat));
    assert(l2 == lits[j].1 && lits[j].1 == "str_"@ + nat_text(j as nat));
    assert(i != j);
    if l1 == l2 {
        lemma_prefixed_injective("str_"@, nat_text(i as nat), nat_text(j as nat));
        lemma_nat_text_injective(i as nat, j as nat);
    }
}

/// Inside a function, a declared variable is stored in its stack slot,
/// and a later read or assignment of the name addresses that same slot.
pub proof fn law_declared_local_is_read_back(g: GenView, name: Seq<char>, init: Option<ExprView>)
    requires
        g.in_function,
        4 <= g.local_offset,
        !(g.loop_var matches Some(v) && v.0 == name),
    ensures
        ({
            let r = gen_local_decl(g, name, init);
            &&& find_local(r.locals, name) matches Some(off)
            &&& r.current.code.last() == store_line(off)
            &&& ident_load_line(r, name) == load_line(off)
            &&& store_target_line(r, name) == store_line(off)
        }),
{
    match init {
        Some(x) => lemma_expr_same_frame(g, x),
        None => {},
    }
    let g1 = match init {
        Some(x) => gen_expr(g, x),
        None => crate::codegen::emission::emit(g, "    mov rax, 0"@),
    };
    let r = gen_local_decl(g, name, init);
    if find_local(g1.locals, name) is None {
        let off = -g1.local_offset;
        assert(g1.locals.push((name, off)).drop_last() =~= g1.locals);
        assert(find_local(r.locals, name) == Some(off));
        assert(-off == g1.local_offset);
    }
}

/// A function is generated in a section of its own, appended to the
/// program's sections, after which the generator is back in the section it
/// was filling, outside any function and with no locals.
pub proof fn law_function_gets_own_section(g: GenView, s: StmtView)
    requires
        s is FunctionDeclaration,
    ensures
        ({
            let r = gen_stmt(g, s);
            &&& g.program.sections.is_prefix_of(r.program.sections)
            &&& r.program.sections.len() > g.program.sections.len()
            &&& r.program.sections.last().name == "f_"@ + s->FunctionDeclaration_name + ":"@
            &&& r.current == g.current
            &&& !r.in_function
            &&& r.locals.len() == 0
        }),
{
    match s {
        StmtView::FunctionDeclaration { name, parameters, return_type: _, body } => {
            let ga = GenView { current: SectionView { name: "f_"@ + name + ":"@, code: seq![] }, ..g };
            let gb = emit(emit(emit(ga, "    push rbp"@), "    mov rbp, rsp"@), "    sub rsp, 16"@);
            let gc = GenView {
                locals: gb.locals + param_slots(parameters),
                in_function: true,
                local_offset: 4,
                ..gb
            };
            lemma_stmts_keep_section(gc, body);
            let gd = emit_epilogue(gen_stmts(gc, body));
            let r = gen_stmt(g, s);
            assert(r.program.sections.subrange(0, g.program.sections.len() as int)
                =~= gd.program.sections.subrange(0, g.program.sections.len() as int));
        },
        _ => {},
    }
}

/// A `for` loop renames its variable only while it is generated.
pub proof fn law_loop_variable_ends_with_the_loop(g: GenView, s: StmtView)
    requires
        s is For,
    ensures
        gen_stmt(g, s).loop_var is None,
{
}

/// What generating a statement keeps of the program: the section being
/// filled keeps its label, the data and text sections are untouched, and
/// lines of the bss section and sections of code are only appended.
pub open spec fn keeps_sections(before: GenView, after: GenView) -> bool {
    &&& after.current.name == before.current.name
    &&& before.program.sections.is_prefix_of(after.program.sections)
    &&& before.program.bss.is_prefix_of(after.program.bss)
    &&& after.program.data == before.program.data
    &&& after.program.text == before.program.text
}

proof fn lemma_keeps_sections_trans(a: GenView, b: GenView, c: GenView)
    requires
        keeps_sections(a, b),
        keeps_sections(b, c),
    ensures
        keeps_sections(a, c),
{
    assert(c.program.sections.subrange(0, b.program.sections.len() as int).subrange(
        0,
        a.program.sections.len() as int,
    ) =~= c.program.sections.subrange(0, a.program.sections.len() as int));
    assert(c.program.bss.subrange(0, b.program.bss.len() as int).subrange(
        0,
        a.program.bss.len() as int,
    ) =~= c.program.bss.subrange(0, a.program.bss.len() as int));
}

proof fn lemma_same_frame_keeps_sections(a: GenView, b: GenView)
    requires
        b.current.name == a.current.name,
        b.program == a.program,
    ensures
        keeps_sections(a, b),
{
    assert(b.program.sections.subrange(0, a.program.sections.len() as int) =~= a.program.sections);
    assert(b.program.bss.subrange(0, a.program.bss.len() as int) =~= a.program.bss);
}

proof fn lemma_stmt_keeps_section(g: GenView, s: StmtView)
    ensures
        keeps_sections(g, gen_stmt(g, s)),
    decreases s, 1nat,
{
    let r = gen_stmt(g, s);
    match s {
        StmtView::FunctionDeclaration { name, parameters, return_type: _, body } => {
            let ga = GenView { current: SectionView { name: "f_"@ + name + ":"@, code: seq![] }, ..g };
            let gb = emit(emit(emit(ga, "    push rbp"@), "    mov rbp, rsp"@), "    sub rsp, 16"@);
            let gc = GenView {
                locals: gb.locals + param_slots(parameters),
                in_function: true,
                local_offset: 4,
                ..gb
            };
            lemma_stmts_keep_section(gc, body);
            let gd = emit_epilogue(gen_stmts(gc, body));
            assert(r.program.sections.subrange(0, g.program.sections.len() as int)
                =~= gd.program.sections.subrange(0, g.program.sections.len() as int));
        },
        StmtView::If { condition, then_branch, else_branch } => {
            lemma_expr_same_frame(g, condition);
            let g1 = gen_expr(g, condition);
            let g2 = emit(emit(take_labels(g1, 2), "    cmp rax, 0"@), "    je "@ + label_name(g1.labels));
            lemma_same_frame_keeps_sections(g, g2);
            lemma_stmts_keep_section(g2, then_branch);
            let g3 = emit(emit(gen_stmts(g2, then_branch), "    jmp "@ + label_name(g1.labels + 1)), label_name(g1.labels) + ":"@);
            lemma_keeps_sections_trans(g, g2, g3);
            match else_branch {
                Some(b) => {
                    lemma_stmts_keep_section(g3, b);
                    lemma_keeps_sections_trans(g, g3, r);
                },
                None => {},
            }
        },
        StmtView::For { init, cond, incr, body } => {
            lemma_for_init_keeps_section(g, *init);
            let g1 = gen_for_init(g, *init);
            let g2 = emit(take_labels(g1, 1), label_name(g1.labels) + ":"@);
            lemma_keeps_sections_trans(g, g1, g2);
            match *cond {
                StmtView::ExpressionStatement { expr } => {
                    lemma_expr_same_frame(g2, expr);
                    let ga = gen_expr(g2, expr);
                    let gb = emit(emit(take_labels(ga, 1), "    cmp rax, 0"@), "    je "@ + label_name(ga.labels));
                    lemma_same_frame_keeps_sections(g2, gb);
                    lemma_keeps_sections_trans(g, g2, gb);
                    lemma_stmts_keep_section(gb, body);
                    let gc0 = gen_stmts(gb, body);
                    lemma_keeps_sections_trans(g, gb, gc0);
                    lemma_stmt_keeps_section(gc0, *incr);
                    lemma_keeps_sections_trans(g, gc0, gen_stmt(gc0, *incr));
                },
                _ => {},
            }
        },
        StmtView::While { condition, body } => {
            let g0 = emit(take_labels(g, 1), label_name(g.labels) + ":"@);
            lemma_expr_same_frame(g0, condition);
            let g1 = gen_expr(g0, condition);
            let g2 = emit(emit(take_labels(g1, 1), "    cmp rax, 0"@), "    je "@ + label_name(g1.labels));
            lemma_same_frame_keeps_sections(g, g2);
            lemma_stmts_keep_section(g2, body);
            lemma_keeps_sections_trans(g, g2, gen_stmts(g2, body));
        },
        StmtView::Switch { condition, cases, default } => {
            lemma_expr_same_frame(g, condition);
            let g1 = gen_expr(g, condition);
            let gt = take_labels(g1, 1);
            lemma_same_frame_keeps_sections(g, gt);
            lemma_cases_keep_section(gt, condition, label_name(g1.labels), cases);
            let g2 = gen_cases(gt, condition, label_name(g1.labels), cases);
            lemma_keeps_sections_trans(g, gt, g2);
            match default {
                Some(b) => {
                    lemma_stmts_keep_section(g2, b);
                    lemma_keeps_sections_trans(g, g2, gen_stmts(g2, b));
                },
                None => {},
            }
        },
        StmtView::VarDeclaration { name, declared_type: _, init } => {
            match init {
                Some(x) => lemma_expr_same_frame(g, x),
                None => {},
            }
            let g1 = match init {
                Some(x) => gen_expr(g, x),
                None => emit(g, "    mov rax, 0"@),
            };
            lemma_same_frame_keeps_sections(g, g1);
        },
        StmtView::VarAffection { name, value } => {
            lemma_expr_same_frame(g, value);
            lemma_same_frame_keeps_sections(g, gen_expr(g, value));
        },
        StmtView::ExpressionStatement { expr } => {
            lemma_expr_same_frame(g, expr);
            lemma_same_frame_keeps_sections(g, gen_expr(g, expr));
        },
        StmtView::Return { value } => {
            match value {
                Some(x) => {
                    lemma_expr_same_frame(g, x);
                    lemma_same_frame_keeps_sections(g, gen_expr(g, x));
                },
                None => {
                    lemma_same_frame_keeps_sections(g, g);
                },
            }
        },
    }
}

proof fn lemma_stmts_keep_section(g: GenView, ss: Seq<StmtView>)
    ensures
        keeps_sections(g, gen_stmts(g, ss)),
    decreases ss, 1nat,
{
    if ss.len() > 0 {
        lemma_stmts_keep_section(g, ss.drop_last());
        let g0 = gen_stmts(g, ss.drop_last());
        lemma_stmt_keeps_section(g0, ss.last());
        lemma_keeps_sections_trans(g, g0, gen_stmts(g, ss));
    } else {
        lemma_same_frame_keeps_sections(g, g);
    }
}

proof fn lemma_cases_keep_section(
    g: GenView,
    condition: ExprView,
    end_label: Seq<char>,
    cases: Seq<(ExprView, Seq<StmtView>)>,
)
    ensures
        keeps_sections(g, gen_cases(g, condition, end_label, cases)),
    decreases cases, 1nat,
{
    if cases.len() > 0 {
        lemma_cases_keep_section(g, condition, end_label, cases.drop_last());
        let g0 = gen_cases(g, condition, end_label, cases.drop_last());
        let case_label = label_name(g0.labels);
        let gt = take_labels(g0, 1);
        lemma_expr_same_frame(gt, cases.last().0);
        let g1 = gen_expr(gt, cases.last().0);
        lemma_expr_same_frame(emit(g1, "    mov rbx, rax"@), condition);
        let g2 = gen_expr(emit(g1, "    mov rbx, rax"@), condition);
        let g3 = emit(emit(g2, "    cmp rax, rbx"@), "    jne "@ + case_label);
        lemma_same_frame_keeps_sections(g0, g3);
        lemma_keeps_sections_trans(g, g0, g3);
        lemma_stmts_keep_section(g3, cases.last().1);
        lemma_keeps_sections_trans(g, g3, gen_stmts(g3, cases.last().1));
    } else {
        lemma_same_frame_keeps_sections(g, g);
    }
}

proof fn lemma_for_init_keeps_section(g: GenView, init: StmtView)
    ensures
        keeps_sections(g, gen_for_init(g, init)),
    decreases init, 2nat,
{
    match init {
        StmtView::VarDeclaration { name, declared_type: _, init: value } => {
            let n = g.loops + 1;
            let ga = GenView { loops: n, loop_var: Some((name, loop_var_name(name, n))), ..g };
            match value {
                Some(x) => lemma_expr_same_frame(ga, x),
                None => {},
            }
            let r = gen_for_init(g, init);
            assert(r.program.sections == g.program.sections);
            assert(r.program.sections.subrange(0, g.program.sections.len() as int) =~= g.program.sections);
            assert(r.program.bss.subrange(0, g.program.bss.len() as int) =~= g.program.bss);
        },
        _ => {
            lemma_stmt_keeps_section(g, init);
        },
    }
}

/// What an instruction does to the stack, in 8-byte slots: a push adds
/// one, a pop takes one, `add rsp, N` takes `N / 8`, anything else leaves
/// it.
pub open spec fn line_stack_effect(l: Seq<char>) -> int {
    if l == "    push rax"@ {
        1
    } else if l == "    pop rbx"@ {
        -1
    } else if l.len() >= 13 && l.subrange(0, 13) == "    add rsp, "@ {
        -(digits_value(l.subrange(13, l.len() as int)) / 8)
    } else {
        0
    }
}

/// What instructions do to the stack, in 8-byte slots.
pub open spec fn stack_effect(lines: Seq<Seq<char>>) -> int
    decreases lines.len(),
{
    if lines.len() == 0 {
        0
    } else {
        stack_effect(lines.drop_last()) + line_stack_effect(lines.last())
    }
}

proof fn lemma_digit_value(d: nat)
    requires
        d < 10,
    ensures
        digit_value(digit_char(d)) == d,
{
    assert('0' as int == 48);
    if d == 0 {
    } else if d == 1 {
        assert('1' as int == 49);
    } else if d == 2 {
        assert('2' as int == 50);
    } else if d == 3 {
        assert('3' as int == 51);
    } else if d == 4 {
        assert('4' as int == 52);
    } else if d == 5 {
        assert('5' as int == 53);
    } else if d == 6 {
        assert('6' as int == 54);
    } else if d == 7 {
        assert('7' as int == 55);
    } else if d == 8 {
        assert('8' as int == 56);
    } else {
        assert('9' as int == 57);
    }
}

proof fn lemma_digits_value_nat_text(n: nat)
    ensures
        digits_value(nat_text(n)) == n,
    decreases n,
{
    lemma_digit_value(n % 10);
    if n >= 10 {
        lemma_digits_value_nat_text(n / 10);
        assert(nat_text(n).drop_last() =~= nat_text(n / 10));
        assert(nat_text(n).last() == digit_char(n % 10));
        assert((n / 10) * 10 + n % 10 == n) by (nonlinear_arith);
        assert(digits_value(nat_text(n)) == digits_value(nat_text(n / 10)) * 10 + digit_value(
            digit_char(n % 10),
        ));
    } else {
        assert(nat_text(n).drop_last() =~= Seq::<char>::empty());
        assert(nat_text(n).last() == digit_char(n));
        assert(n % 10 == n);
        assert(digits_value(Seq::<char>::empty()) == 0);
        assert(digits_value(nat_text(n)) == digits_value(Seq::<char>::empty()) * 10 + digit_value(
            digit_char(n),
        ));
    }
}

proof fn lemma_emit_effect(g: GenView, l: Seq<char>)
    ensures
        stack_effect(emit(g, l).current.code) == stack_effect(g.current.code) + line_stack_effect(l),
{
    assert(g.current.code.push(l).drop_last() =~= g.current.code);
}

/// An instruction that neither pushes, pops nor adds to `rsp` leaves the
/// stack: one whose fifth character is not `p`, and that is not
/// `add rsp`.
proof fn lemma_emit_neutral(g: GenView, l: Seq<char>)
    requires
        l.len() >= 10,
        l[4] != 'p',
        l[4] != 'a' || l[5] != 'd' || l[9] != 's',
    ensures
        stack_effect(emit(g, l).current.code) == stack_effect(g.current.code),
{
    reveal_strlit("    push rax");
    reveal_strlit("    pop rbx");
    reveal_strlit("    add rsp, ");
    if l == "    push rax"@ {
        assert(l[4] == 'p' && l[5] == 'u');
    }
    if l == "    pop rbx"@ {
        assert(l[4] == 'p' && l[5] == 'o');
    }
    if l.len() >= 13 && l.subrange(0, 13) == "    add rsp, "@ {
        assert(l[4] == l.subrange(0, 13)[4]);
        assert(l[5] == l.subrange(0, 13)[5]);
        assert(l[9] == l.subrange(0, 13)[9]);
    }
    lemma_emit_effect(g, l);
}

proof fn lemma_comparison_neutral(g: GenView, set_line: Seq<char>)
    requires
        set_line.len() >= 10,
        set_line[4] == 's',
    ensures
        stack_effect(emit_comparison(g, set_line).current.code) == stack_effect(g.current.code),
{
    reveal_strlit("    cmp rax, rbx");
    reveal_strlit("    movzx rax, al");
    let g1 = emit(g, "    cmp rax, rbx"@);
    lemma_emit_neutral(g, "    cmp rax, rbx"@);
    lemma_emit_neutral(g1, set_line);
    lemma_emit_neutral(emit(g1, set_line), "    movzx rax, al"@);
}

proof fn lemma_operator_neutral(g: GenView, op: Seq<char>)
    ensures
        stack_effect(emit_operator(g, op).current.code) == stack_effect(g.current.code),
{
    reveal_strlit("    add rax, rbx");
    reveal_strlit("    sub rax, rbx");
    reveal_strlit("    imul rax, rbx");
    reveal_strlit("    cqo");
    reveal_strlit("    idiv rbx");
    reveal_strlit("    sete al");
    reveal_strlit("    setne al");
    reveal_strlit("    setl al");
    reveal_strlit("    setle al");
    reveal_strlit("    setg al");
    reveal_strlit("    setge al");
    reveal_strlit("    and rax, rbx");
    reveal_strlit("    or rax, rbx");
    reveal_strlit("    mov rax, rdx");
    reveal_strlit("    ; Unsupported binary operator");
    reveal_strlit("    push rax");
    reveal_strlit("    pop rbx");
    reveal_strlit("    add rsp, ");
    if op == "+"@ {
        lemma_emit_neutral(g, "    add rax, rbx"@);
    } else if op == "-"@ {
        lemma_emit_neutral(g, "    sub rax, rbx"@);
    } else if op == "*"@ {
        lemma_emit_neutral(g, "    imul rax, rbx"@);
    } else if op == "/"@ {
        lemma_emit_effect(g, "    cqo"@);
        lemma_emit_neutral(emit(g, "    cqo"@), "    idiv rbx"@);
    } else if op == "=="@ {
        lemma_comparison_neutral(g, "    sete al"@);
    } else if op == "!="@ {
        lemma_comparison_neutral(g, "    setne al"@);
    } else if op == "<"@ {
        lemma_comparison_neutral(g, "    setl al"@);
    } else if op == "<="@ {
        lemma_comparison_neutral(g, "    setle al"@);
    } else if op == ">"@ {
        lemma_comparison_neutral(g, "    setg al"@);
    } else if op == ">="@ {
        lemma_comparison_neutral(g, "    setge al"@);
    } else if op == "&&"@ {
        lemma_emit_neutral(g, "    and rax, rbx"@);
    } else if op == "||"@ {
        lemma_emit_neutral(g, "    or rax, rbx"@);
    } else if op == "%"@ {
        lemma_emit_effect(g, "    cqo"@);
        let g1 = emit(g, "    cqo"@);
        lemma_emit_neutral(g1, "    idiv rbx"@);
        lemma_emit_neutral(emit(g1, "    idiv rbx"@), "    mov rax, rdx"@);
    } else {
        lemma_emit_neutral(g, "    ; Unsupported binary operator"@);
    }
}

/// The code of an expression leaves the stack as it found it: what it
/// pushes it pops, or takes back with `add rsp` after a call.
pub proof fn law_expression_keeps_stack_balanced(g: GenView, e: ExprView)
    ensures
        stack_effect(gen_expr(g, e).current.code) == stack_effect(g.current.code),
    decreases e,
{
    reveal_strlit("    push rax");
    reveal_strlit("    pop rbx");
    reveal_strlit("    add rsp, ");
    reveal_strlit("    lea rax, [rel ");
    reveal_strlit("    mov rax, ");
    reveal_strlit("    mov rax, 1");
    reveal_strlit("    mov rax, 0");
    reveal_strlit("    mov rax, [");
    reveal_strlit("    mov rax, [rbp + ");
    reveal_strlit("    mov rax, [rbp - ");
    reveal_strlit("    xchg rax, rbx");
    reveal_strlit("    lea rdi, [rel format]");
    reveal_strlit("    mov rsi, rax");
    reveal_strlit("    xor rax, rax");
    reveal_strlit("    call printf");
    reveal_strlit("    call f_");
    match e {
        ExprView::Str(s) => {
            let (l, g1) = literal_label(g, s);
            lemma_emit_neutral(g1, "    lea rax, [rel "@ + l + "]"@);
        },
        ExprView::Int(v) => {
            lemma_emit_neutral(g, "    mov rax, "@ + int_text(v as int));
        },
        ExprView::Float(t) => {
            lemma_emit_neutral(g, "    mov rax, "@ + t);
        },
        ExprView::Bool(b) => {
            lemma_emit_neutral(g, "    mov rax, 1"@);
            lemma_emit_neutral(g, "    mov rax, 0"@);
        },
        ExprView::Ident(name) => {
            let l = ident_load_line(g, name);
            assert(l.len() >= 10 && l[4] == 'm');
            lemma_emit_neutral(g, l);
        },
        ExprView::Binary(l, op, r) => {
            law_expression_keeps_stack_balanced(g, *l);
            let g0 = gen_expr(g, *l);
            lemma_emit_effect(g0, "    push rax"@);
            let g1 = emit(g0, "    push rax"@);
            law_expression_keeps_stack_balanced(g1, *r);
            let g2 = gen_expr(g1, *r);
            lemma_emit_effect(g2, "    pop rbx"@);
            lemma_emit_neutral(emit(g2, "    pop rbx"@), "    xchg rax, rbx"@);
            lemma_operator_neutral(emit(emit(g2, "    pop rbx"@), "    xchg rax, rbx"@), op);
        },
        ExprView::Call(name, args) => {
            if name == "print"@ {
                if args.len() == 1 {
                    law_expression_keeps_stack_balanced(g, args[0]);
                    let g0 = gen_expr(g, args[0]);
                    lemma_emit_neutral(g0, "    lea rdi, [rel format]"@);
                    let g1 = emit(g0, "    lea rdi, [rel format]"@);
                    lemma_emit_neutral(g1, "    mov rsi, rax"@);
                    let g2 = emit(g1, "    mov rsi, rax"@);
                    lemma_emit_neutral(g2, "    xor rax, rax"@);
                    lemma_emit_neutral(emit(g2, "    xor rax, rax"@), "    call printf"@);
                }
            } else {
                lemma_args_push_each(g, args);
                let g0 = gen_args(g, args);
                lemma_emit_neutral(g0, "    call f_"@ + name);
                let g1 = emit(g0, "    call f_"@ + name);
                if args.len() > 0 {
                    let l = "    add rsp, "@ + nat_text(8 * args.len());
                    lemma_digits_value_nat_text(8 * args.len());
                    assert(l.subrange(0, 13) =~= "    add rsp, "@);
                    assert(l.subrange(13, l.len() as int) =~= nat_text(8 * args.len()));
                    assert(l.len() > 13);
                    assert(l != "    push rax"@);
                    assert(l != "    pop rbx"@);
                    assert(line_stack_effect(l) == -(args.len() as int));
                    lemma_emit_effect(g1, l);
                }
            }
        },
    }
}

/// The code of call arguments leaves one more value on the stack per
/// argument.
pub proof fn lemma_args_push_each(g: GenView, args: Seq<ExprView>)
    ensures
        stack_effect(gen_args(g, args).current.code) == stack_effect(g.current.code) + args.len(),
    decreases args,
{
    reveal_strlit("    push rax");
    if args.len() > 0 {
        lemma_args_push_each(g, args.drop_last());
        let g0 = gen_args(g, args.drop_last());
        law_expression_keeps_stack_balanced(g0, args.last());
        lemma_emit_effect(gen_expr(g0, args.last()), "    push rax"@);
    }
}

proof fn lemma_top_level_keeps_sections(g: GenView, ss: Seq<StmtView>)
    ensures
        keeps_sections(g, gen_top_level(g, ss)),
    decreases ss.len(),
{
    if ss.len() > 0 {
        lemma_top_level_keeps_sections(g, ss.drop_last());
        let g0 = gen_top_level(g, ss.drop_last());
        if !(ss.last() is VarDeclaration) {
            lemma_stmt_keeps_section(g0, ss.last());
            lemma_keeps_sections_trans(g, g0, gen_top_level(g, ss));
        }
    } else {
        lemma_same_frame_keeps_sections(g, g);
    }
}

/// The layout of a generated program: the data section holds the `printf`
/// format and every string literal the code uses, the text section jumps
/// to `f_main`, the bss section starts with a quadword per global (none
/// when a function is being generated), and the last section of code is
/// `f_main`, which ends with the exit system call.
pub proof fn law_program_layout(g: GenView, ss: Seq<StmtView>)
    ensures
        ({
            let r = gen_program(g, ss);
            let globals = if g.in_function {
                Seq::empty()
            } else {
                global_decls(ss)
            };
            let main = r.program.sections.last();
            &&& r.program.data == g.program.data + seq![
                "section .data"@,
                "    format: db \"%d\", 10, 0"@,
            ] + data_lines(r.literals)
            &&& r.program.text == g.program.text + seq![
                "section .text"@,
                "global _start"@,
                "extern printf"@,
                Seq::<char>::empty(),
                "_start:"@,
                "    jmp f_main"@,
            ]
            &&& (g.program.bss + seq!["section .bss"@] + bss_lines(globals)).is_prefix_of(
                r.program.bss,
            )
            &&& g.program.sections.is_prefix_of(r.program.sections)
            &&& r.program.sections.len() > g.program.sections.len()
            &&& main.name == "f_main:"@
            &&& main.code.len() >= 3
            &&& main.code.subrange(main.code.len() - 3, main.code.len() as int) == seq![
                "    mov rax, 60"@,
                "    xor rdi, rdi"@,
                "    syscall"@,
            ]
        }),
{
    let globals = if g.in_function {
        Seq::empty()
    } else {
        global_decls(ss)
    };
    let p = g.program;
    let program = AssemblyView {
        data: p.data,
        bss: p.bss + seq!["section .bss"@] + bss_lines(globals),
        text: p.text + seq![
            "section .text"@,
            "global _start"@,
            "extern printf"@,
            Seq::<char>::empty(),
            "_start:"@,
            "    jmp f_main"@,
        ],
        sections: p.sections,
    };
    let g1 = GenView { program, current: SectionView { name: "f_main:"@, code: seq![] }, ..g };
    lemma_global_inits_same_frame(g1, globals);
    let gi = gen_global_inits(g1, globals);
    lemma_same_frame_keeps_sections(g1, gi);
    lemma_top_level_keeps_sections(gi, ss);
    lemma_keeps_sections_trans(g1, gi, gen_top_level(gi, ss));
    let g2 = gen_top_level(gi, ss);
    let g3 = emit(emit(emit(g2, "    mov rax, 60"@), "    xor rdi, rdi"@), "    syscall"@);
    let r = gen_program(g, ss);
    assert(r.program.sections.last() == g3.current);
    assert(g3.current.code.subrange(g3.current.code.len() - 3, g3.current.code.len() as int)
        =~= seq!["    mov rax, 60"@, "    xor rdi, rdi"@, "    syscall"@]);
    assert(r.program.sections.subrange(0, g.program.sections.len() as int)
        =~= g2.program.sections.subrange(0, g.program.sections.len() as int));
}

/// Whether the code of the section being filled in `after` starts with all
/// of that in `before`.
pub open spec fn code_grows(before: GenView, after: GenView) -> bool {
    before.current.code.is_prefix_of(after.current.code)
}

proof fn lemma_code_grows_trans(a: GenView, b: GenView, c: GenView)
    requires
        code_grows(a, b),
        code_grows(b, c),
    ensures
        code_grows(a, c),
{
    assert(c.current.code.subrange(0, b.current.code.len() as int).subrange(
        0,
        a.current.code.len() as int,
    ) =~= c.current.code.subrange(0, a.current.code.len() as int));
}

proof fn lemma_emit_grows(g: GenView, l: Seq<char>)
    ensures
        code_grows(g, emit(g, l)),
{
    assert(emit(g, l).current.code.subrange(0, g.current.code.len() as int) =~= g.current.code);
}

proof fn lemma_operator_grows(g: GenView, op: Seq<char>)
    ensures
        code_grows(g, emit_operator(g, op)),
{
    assert(emit_operator(g, op).current.code.subrange(0, g.current.code.len() as int)
        =~= g.current.code);
}

proof fn lemma_expr_grows(g: GenView, e: ExprView)
    ensures
        code_grows(g, gen_expr(g, e)),
    decreases e,
{
    match e {
        ExprView::Str(s) => {
            let (l, g1) = literal_label(g, s);
            lemma_emit_grows(g1, "    lea rax, [rel "@ + l + "]"@);
        },
        ExprView::Binary(l, op, r) => {
            lemma_expr_grows(g, *l);
            let g0 = gen_expr(g, *l);
            lemma_emit_grows(g0, "    push rax"@);
            lemma_code_grows_trans(g, g0, emit(g0, "    push rax"@));
            let g1 = emit(g0, "    push rax"@);
            lemma_expr_grows(g1, *r);
            lemma_code_grows_trans(g, g1, gen_expr(g1, *r));
            let g2 = gen_expr(g1, *r);
            let g3 = emit(emit(g2, "    pop rbx"@), "    xchg rax, rbx"@);
            assert(g3.current.code.subrange(0, g2.current.code.len() as int) =~= g2.current.code);
            lemma_code_grows_trans(g, g2, g3);
            lemma_operator_grows(g3, op);
            lemma_code_grows_trans(g, g3, emit_operator(g3, op));
        },
        ExprView::Call(name, args) => {
            if name == "print"@ {
                if args.len() == 1 {
                    lemma_expr_grows(g, args[0]);
                    let g0 = gen_expr(g, args[0]);
                    let r = gen_expr(g, e);
                    assert(r.current.code.subrange(0, g0.current.code.len() as int) =~= g0.current.code);
                    lemma_code_grows_trans(g, g0, r);
                } else {
                    assert(g.current.code.subrange(0, g.current.code.len() as int) =~= g.current.code);
                }
            } else {
                lemma_args_grows(g, args);
                let g0 = gen_args(g, args);
                let r = gen_expr(g, e);
                assert(r.current.code.subrange(0, g0.current.code.len() as int) =~= g0.current.code);
                lemma_code_grows_trans(g, g0, r);
            }
        },
        _ => {
            assert(gen_expr(g, e).current.code.subrange(0, g.current.code.len() as int)
                =~= g.current.code);
        },
    }
}

proof fn lemma_args_grows(g: GenView, args: Seq<ExprView>)
    ensures
        code_grows(g, gen_args(g, args)),
    decreases args,
{
    if args.len() > 0 {
        lemma_args_grows(g, args.drop_last());
        let g0 = gen_args(g, args.drop_last());
        lemma_expr_grows(g0, args.last());
        lemma_code_grows_trans(g, g0, gen_expr(g0, args.last()));
        lemma_emit_grows(gen_expr(g0, args.last()), "    push rax"@);
        lemma_code_grows_trans(g, gen_expr(g0, args.last()), gen_args(g, args));
    } else {
        assert(g.current.code.subrange(0, g.current.code.len() as int) =~= g.current.code);
    }
}

proof fn lemma_same_code_grows(g: GenView)
    ensures
        code_grows(g, g),
{
    assert(g.current.code.subrange(0, g.current.code.len() as int) =~= g.current.code);
}

proof fn lemma_emit2_grows(g: GenView, a: Seq<char>, b: Seq<char>)
    ensures
        code_grows(g, emit(emit(g, a), b)),
{
    assert(emit(emit(g, a), b).current.code.subrange(0, g.current.code.len() as int)
        =~= g.current.code);
}

proof fn lemma_local_decl_grows(g: GenView, name: Seq<char>, init: Option<ExprView>)
    ensures
        code_grows(g, gen_local_decl(g, name, init)),
{
    let g1 = match init {
        Some(x) => gen_expr(g, x),
        None => emit(g, "    mov rax, 0"@),
    };
    match init {
        Some(x) => lemma_expr_grows(g, x),
        None => lemma_emit_grows(g, "    mov rax, 0"@),
    }
    let r = gen_local_decl(g, name, init);
    assert(r.current.code.subrange(0, g1.current.code.len() as int) =~= g1.current.code);
    lemma_code_grows_trans(g, g1, r);
}

/// Generating a statement only appends code to the section being filled
/// (a function, which goes to a section of its own, leaves it as it is).
pub proof fn law_statement_appends_code(g: GenView, s: StmtView)
    ensures
        code_grows(g, gen_stmt(g, s)),
    decreases s, 1nat,
{
    let r = gen_stmt(g, s);
    match s {
        StmtView::FunctionDeclaration { .. } => {
            lemma_same_code_grows(g);
        },
        StmtView::If { condition, then_branch, else_branch } => {
            lemma_expr_grows(g, condition);
            let g1 = gen_expr(g, condition);
            let g2 = emit(emit(take_labels(g1, 2), "    cmp rax, 0"@), "    je "@ + label_name(g1.labels));
            lemma_emit2_grows(take_labels(g1, 2), "    cmp rax, 0"@, "    je "@ + label_name(g1.labels));
            lemma_code_grows_trans(g, g1, g2);
            lemma_stmts_append_code(g2, then_branch);
            let gt = gen_stmts(g2, then_branch);
            lemma_code_grows_trans(g, g2, gt);
            let g3 = emit(emit(gt, "    jmp "@ + label_name(g1.labels + 1)), label_name(g1.labels) + ":"@);
            lemma_emit2_grows(gt, "    jmp "@ + label_name(g1.labels + 1), label_name(g1.labels) + ":"@);
            lemma_code_grows_trans(g, gt, g3);
            let g4 = match else_branch {
                Some(b) => gen_stmts(g3, b),
                None => g3,
            };
            match else_branch {
                Some(b) => {
                    lemma_stmts_append_code(g3, b);
                    lemma_code_grows_trans(g, g3, g4);
                },
                None => {},
            }
            lemma_emit_grows(g4, label_name(g1.labels + 1) + ":"@);
            lemma_code_grows_trans(g, g4, r);
        },
        StmtView::For { init, cond, incr, body } => {
            lemma_for_init_appends_code(g, *init);
            let g1 = gen_for_init(g, *init);
            let g2 = emit(take_labels(g1, 1), label_name(g1.labels) + ":"@);
            lemma_emit_grows(take_labels(g1, 1), label_name(g1.labels) + ":"@);
            lemma_code_grows_trans(g, g1, g2);
            match *cond {
                StmtView::ExpressionStatement { expr } => {
                    lemma_expr_grows(g2, expr);
                    let ga = gen_expr(g2, expr);
                    lemma_code_grows_trans(g, g2, ga);
                    let gb = emit(emit(take_labels(ga, 1), "    cmp rax, 0"@), "    je "@ + label_name(ga.labels));
                    lemma_emit2_grows(take_labels(ga, 1), "    cmp rax, 0"@, "    je "@ + label_name(ga.labels));
                    lemma_code_grows_trans(g, ga, gb);
                    lemma_stmts_append_code(gb, body);
                    let gc0 = gen_stmts(gb, body);
                    lemma_code_grows_trans(g, gb, gc0);
                    law_statement_appends_code(gc0, *incr);
                    let gc = gen_stmt(gc0, *incr);
                    lemma_code_grows_trans(g, gc0, gc);
                    lemma_emit2_grows(gc, "    jmp "@ + label_name(g1.labels), label_name(ga.labels) + ":"@);
                    lemma_code_grows_trans(g, gc, r);
                },
                _ => {
                    lemma_emit_grows(g2, "    ; For-loop condition must be an expression statement"@);
                    lemma_code_grows_trans(g, g2, r);
                },
            }
        },
        StmtView::While { condition, body } => {
            let g0 = emit(take_labels(g, 1), label_name(g.labels) + ":"@);
            lemma_emit_grows(take_labels(g, 1), label_name(g.labels) + ":"@);
            lemma_expr_grows(g0, condition);
            let g1 = gen_expr(g0, condition);
            lemma_code_grows_trans(g, g0, g1);
            let g2 = emit(emit(take_labels(g1, 1), "    cmp rax, 0"@), "    je "@ + label_name(g1.labels));
            lemma_emit2_grows(take_labels(g1, 1), "    cmp rax, 0"@, "    je "@ + label_name(g1.labels));
            lemma_code_grows_trans(g, g1, g2);
            lemma_stmts_append_code(g2, body);
            let gb = gen_stmts(g2, body);
            lemma_code_grows_trans(g, g2, gb);
            lemma_emit2_grows(gb, "    jmp "@ + label_name(g.labels), label_name(g1.labels) + ":"@);
            lemma_code_grows_trans(g, gb, r);
        },
        StmtView::Switch { condition, cases, default } => {
            lemma_expr_grows(g, condition);
            let g1 = gen_expr(g, condition);
            let gt = take_labels(g1, 1);
            lemma_cases_append_code(gt, condition, label_name(g1.labels), cases);
            let g2 = gen_cases(gt, condition, label_name(g1.labels), cases);
            lemma_code_grows_trans(g, gt, g2);
            let g3 = match default {
                Some(b) => gen_stmts(g2, b),
                None => g2,
            };
            match default {
                Some(b) => {
                    lemma_stmts_append_code(g2, b);
                    lemma_code_grows_trans(g, g2, g3);
                },
                None => {},
            }
            lemma_emit_grows(g3, label_name(g1.labels) + ":"@);
            lemma_code_grows_trans(g, g3, r);
        },
        StmtView::VarDeclaration { name, declared_type: _, init } => {
            if g.in_function {
                lemma_local_decl_grows(g, name, init);
            } else {
                lemma_same_code_grows(g);
            }
        },
        StmtView::VarAffection { name, value } => {
            lemma_expr_grows(g, value);
            let g1 = gen_expr(g, value);
            lemma_emit_grows(g1, store_target_line(g1, name));
            lemma_code_grows_trans(g, g1, r);
        },
        StmtView::ExpressionStatement { expr } => {
            lemma_expr_grows(g, expr);
        },
        StmtView::Return { value } => {
            let g1 = match value {
                Some(x) => gen_expr(g, x),
                None => g,
            };
            match value {
                Some(x) => lemma_expr_grows(g, x),
                None => lemma_same_code_grows(g),
            }
            assert(r.current.code.subrange(0, g1.current.code.len() as int) =~= g1.current.code);
            lemma_code_grows_trans(g, g1, r);
        },
    }
}

proof fn lemma_stmts_append_code(g: GenView, ss: Seq<StmtView>)
    ensures
        code_grows(g, gen_stmts(g, ss)),
    decreases ss, 1nat,
{
    if ss.len() > 0 {
        lemma_stmts_append_code(g, ss.drop_last());
        let g0 = gen_stmts(g, ss.drop_last());
        law_statement_appends_code(g0, ss.last());
        lemma_code_grows_trans(g, g0, gen_stmts(g, ss));
    } else {
        lemma_same_code_grows(g);
    }
}

proof fn lemma_cases_append_code(
    g: GenView,
    condition: ExprView,
    end_label: Seq<char>,
    cases: Seq<(ExprView, Seq<StmtView>)>,
)
    ensures
        code_grows(g, gen_cases(g, condition, end_label, cases)),
    decreases cases, 1nat,
{
    if cases.len() > 0 {
        lemma_cases_append_code(g, condition, end_label, cases.drop_last());
        let g0 = gen_cases(g, condition, end_label, cases.drop_last());
        let case_label = label_name(g0.labels);
        let gt = take_labels(g0, 1);
        lemma_expr_grows(gt, cases.last().0);
        let g1 = gen_expr(gt, cases.last().0);
        lemma_code_grows_trans(g, gt, g1);
        lemma_emit_grows(g1, "    mov rbx, rax"@);
        lemma_code_grows_trans(g, g1, emit(g1, "    mov rbx, rax"@));
        lemma_expr_grows(emit(g1, "    mov rbx, rax"@), condition);
        let g2 = gen_expr(emit(g1, "    mov rbx, rax"@), condition);
        lemma_code_grows_trans(g, emit(g1, "    mov rbx, rax"@), g2);
        let g3 = emit(emit(g2, "    cmp rax, rbx"@), "    jne "@ + case_label);
        lemma_emit2_grows(g2, "    cmp rax, rbx"@, "    jne "@ + case_label);
        lemma_code_grows_trans(g, g2, g3);
        lemma_stmts_append_code(g3, cases.last().1);
        let g4 = gen_stmts(g3, cases.last().1);
        lemma_code_grows_trans(g, g3, g4);
        lemma_emit2_grows(g4, "    jmp "@ + end_label, case_label + ":"@);
        lemma_code_grows_trans(g, g4, gen_cases(g, condition, end_label, cases));
    } else {
        lemma_same_code_grows(g);
    }
}

proof fn lemma_for_init_appends_code(g: GenView, init: StmtView)
    ensures
        code_grows(g, gen_for_init(g, init)),
    decreases init, 2nat,
{
    match init {
        StmtView::VarDeclaration { name, declared_type: _, init: value } => {
            let n = g.loops + 1;
            let ga = GenView { loops: n, loop_var: Some((name, loop_var_name(name, n))), ..g };
            let gb = match value {
                Some(x) => gen_expr(ga, x),
                None => emit(ga, "    mov rax, 0"@),
            };
            match value {
                Some(x) => lemma_expr_grows(ga, x),
                None => lemma_emit_grows(ga, "    mov rax, 0"@),
            }
            let r = gen_for_init(g, init);
            assert(r.current.code.subrange(0, gb.current.code.len() as int) =~= gb.current.code);
            lemma_code_grows_trans(ga, gb, r);
        },
        _ => {
            law_statement_appends_code(g, init);
        },
    }
}

/// The code of a `while` loop, in order: its start label, the code of its
/// condition, the exit test `cmp rax, 0` and `je` to the exit label, the
/// code of its body, the jump back to the start label, and the exit label.
/// The two labels are fresh and different, so the body runs on each pass
/// and the loop is left only through the test.
pub proof fn law_while_loop_code(g: GenView, condition: ExprView, body: Seq<StmtView>)
    ensures
        ({
            let r = gen_stmt(g, StmtView::While { condition, body });
            let start = label_name(g.labels);
            let exit = label_name(g.labels + 1);
            let at_start = emit(take_labels(g, 1), start + ":"@);
            let tested = gen_expr(at_start, condition);
            let condition_code = tested.current.code.subrange(
                at_start.current.code.len() as int,
                tested.current.code.len() as int,
            );
            let entered = emit(emit(take_labels(tested, 1), "    cmp rax, 0"@), "    je "@ + exit);
            let ran = gen_stmts(entered, body);
            let body_code = ran.current.code.subrange(
                entered.current.code.len() as int,
                ran.current.code.len() as int,
            );
            &&& r.current.code == g.current.code + seq![start + ":"@] + condition_code + seq![
                "    cmp rax, 0"@,
                "    je "@ + exit,
            ] + body_code + seq!["    jmp "@ + start, exit + ":"@]
            &&& start != exit
            &&& r.labels == ran.labels
        }),
{
    let start = label_name(g.labels);
    let exit = label_name(g.labels + 1);
    law_labels_distinct(g.labels, g.labels + 1);
    let at_start = emit(take_labels(g, 1), start + ":"@);
    lemma_expr_same_frame(at_start, condition);
    lemma_expr_grows(at_start, condition);
    let tested = gen_expr(at_start, condition);
    let condition_code = tested.current.code.subrange(
        at_start.current.code.len() as int,
        tested.current.code.len() as int,
    );
    assert(tested.current.code =~= at_start.current.code + condition_code);
    let entered = emit(emit(take_labels(tested, 1), "    cmp rax, 0"@), "    je "@ + exit);
    lemma_stmts_append_code(entered, body);
    let ran = gen_stmts(entered, body);
    let body_code = ran.current.code.subrange(
        entered.current.code.len() as int,
        ran.current.code.len() as int,
    );
    assert(ran.current.code =~= entered.current.code + body_code);
    let r = gen_stmt(g, StmtView::While { condition, body });
    assert(r.current.code =~= g.current.code + seq![start + ":"@] + condition_code + seq![
        "    cmp rax, 0"@,
        "    je "@ + exit,
    ] + body_code + seq!["    jmp "@ + start, exit + ":"@]);
}

/// The code of an `if`, in order: the code of its condition, the test
/// `cmp rax, 0` and `je` to the else label, the code of the then branch, a
/// jump to the end label, the else label, the code of the else branch (none
/// without one), and the end label. The two labels are fresh and different:
/// exactly one branch runs.
pub proof fn law_if_code(
    g: GenView,
    condition: ExprView,
    then_branch: Seq<StmtView>,
    else_branch: Option<Seq<StmtView>>,
)
    ensures
        ({
            let r = gen_stmt(g, StmtView::If { condition, then_branch, else_branch });
            let else_label = label_name(g.labels);
            let end_label = label_name(g.labels + 1);
            let tested = gen_expr(g, condition);
            let condition_code = tested.current.code.subrange(
                g.current.code.len() as int,
                tested.current.code.len() as int,
            );
            let entered = emit(
                emit(take_labels(tested, 2), "    cmp rax, 0"@),
                "    je "@ + else_label,
            );
            let then_done = gen_stmts(entered, then_branch);
            let then_code = then_done.current.code.subrange(
                entered.current.code.len() as int,
                then_done.current.code.len() as int,
            );
            let after_then = emit(emit(then_done, "    jmp "@ + end_label), else_label + ":"@);
            let else_done = match else_branch {
                Some(b) => gen_stmts(after_then, b),
                None => after_then,
            };
            let else_code = else_done.current.code.subrange(
                after_then.current.code.len() as int,
                else_done.current.code.len() as int,
            );
            &&& r.current.code == g.current.code + condition_code + seq![
                "    cmp rax, 0"@,
                "    je "@ + else_label,
            ] + then_code + seq!["    jmp "@ + end_label, else_label + ":"@] + else_code + seq![
                end_label + ":"@,
            ]
            &&& else_branch is None ==> else_code.len() == 0
            &&& else_label != end_label
            &&& r.labels == else_done.labels
        }),
{
    let else_label = label_name(g.labels);
    let end_label = label_name(g.labels + 1);
    law_labels_distinct(g.labels, g.labels + 1);
    lemma_expr_same_frame(g, condition);
    lemma_expr_grows(g, condition);
    let tested = gen_expr(g, condition);
    let condition_code = tested.current.code.subrange(
        g.current.code.len() as int,
        tested.current.code.len() as int,
    );
    assert(tested.current.code =~= g.current.code + condition_code);
    let entered = emit(emit(take_labels(tested, 2), "    cmp rax, 0"@), "    je "@ + else_label);
    lemma_stmts_append_code(entered, then_branch);
    let then_done = gen_stmts(entered, then_branch);
    let then_code = then_done.current.code.subrange(
        entered.current.code.len() as int,
        then_done.current.code.len() as int,
    );
    assert(then_done.current.code =~= entered.current.code + then_code);
    let after_then = emit(emit(then_done, "    jmp "@ + end_label), else_label + ":"@);
    let else_done = match else_branch {
        Some(b) => gen_stmts(after_then, b),
        None => after_then,
    };
    match else_branch {
        Some(b) => lemma_stmts_append_code(after_then, b),
        None => {},
    }
    let else_code = else_done.current.code.subrange(
        after_then.current.code.len() as int,
        else_done.current.code.len() as int,
    );
    assert(else_done.current.code =~= after_then.current.code + else_code);
    let r = gen_stmt(g, StmtView::If { condition, then_branch, else_branch });
    assert(r.current.code =~= g.current.code + condition_code + seq![
        "    cmp rax, 0"@,
        "    je "@ + else_label,
    ] + then_code + seq!["    jmp "@ + end_label, else_label + ":"@] + else_code + seq![
        end_label + ":"@,
    ]);
}

/// The code of a binary operation, in order: the code of the left operand,
/// `push rax`, the code of the right operand, `pop rbx` and `xchg rax, rbx`
/// (the left value in `rax`, the right one in `rbx`), then the operator's
/// instructions, which take their operands in that order.
pub proof fn law_binary_operands_in_order(g: GenView, l: ExprView, op: Seq<char>, r: ExprView)
    ensures
        ({
            let left_done = gen_expr(g, l);
            let left_code = left_done.current.code.subrange(
                g.current.code.len() as int,
                left_done.current.code.len() as int,
            );
            let pushed = emit(left_done, "    push rax"@);
            let right_done = gen_expr(pushed, r);
            let right_code = right_done.current.code.subrange(
                pushed.current.code.len() as int,
                right_done.current.code.len() as int,
            );
            let ready = emit(emit(right_done, "    pop rbx"@), "    xchg rax, rbx"@);
            let done = gen_expr(g, ExprView::Binary(Box::new(l), op, Box::new(r)));
            let op_code = done.current.code.subrange(
                ready.current.code.len() as int,
                done.current.code.len() as int,
            );
            &&& done.current.code == g.current.code + left_code + seq!["    push rax"@]
                + right_code + seq!["    pop rbx"@, "    xchg rax, rbx"@] + op_code
            &&& op == "+"@ ==> op_code == seq!["    add rax, rbx"@]
            &&& op == "-"@ ==> op_code == seq!["    sub rax, rbx"@]
            &&& op == "*"@ ==> op_code == seq!["    imul rax, rbx"@]
            &&& op == "/"@ ==> op_code == seq!["    cqo"@, "    idiv rbx"@]
            &&& op == "%"@ ==> op_code == seq!["    cqo"@, "    idiv rbx"@, "    mov rax, rdx"@]
        }),
{
    lemma_expr_grows(g, l);
    let left_done = gen_expr(g, l);
    let left_code = left_done.current.code.subrange(
        g.current.code.len() as int,
        left_done.current.code.len() as int,
    );
    assert(left_done.current.code =~= g.current.code + left_code);
    let pushed = emit(left_done, "    push rax"@);
    lemma_expr_grows(pushed, r);
    let right_done = gen_expr(pushed, r);
    let right_code = right_done.current.code.subrange(
        pushed.current.code.len() as int,
        right_done.current.code.len() as int,
    );
    assert(right_done.current.code =~= pushed.current.code + right_code);
    let ready = emit(emit(right_done, "    pop rbx"@), "    xchg rax, rbx"@);
    lemma_operator_grows(ready, op);
    let done = gen_expr(g, ExprView::Binary(Box::new(l), op, Box::new(r)));
    let op_code = done.current.code.subrange(
        ready.current.code.len() as int,
        done.current.code.len() as int,
    );
    assert(done.current.code =~= ready.current.code + op_code);
    assert(done.current.code =~= g.current.code + left_code + seq!["    push rax"@] + right_code
        + seq!["    pop rbx"@, "    xchg rax, rbx"@] + op_code);
    reveal_strlit("+");
    reveal_strlit("-");
    reveal_strlit("*");
    reveal_strlit("/");
    reveal_strlit("%");
    reveal_strlit("==");
    reveal_strlit("!=");
    reveal_strlit("<");
    reveal_strlit("<=");
    reveal_strlit(">");
    reveal_strlit(">=");
    reveal_strlit("&&");
    reveal_strlit("||");
    if op == "+"@ || op == "-"@ || op == "*"@ || op == "/"@ || op == "%"@ {
        assert(op.len() == 1);
        let c = op[0];
        assert(c == '+' || c == '-' || c == '*' || c == '/' || c == '%');
        if c == '+' {
            assert(op =~= "+"@);
            assert(op_code =~= seq!["    add rax, rbx"@]);
        } else if c == '-' {
            assert(op =~= "-"@);
            assert(op_code =~= seq!["    sub rax, rbx"@]);
        } else if c == '*' {
            assert(op =~= "*"@);
            assert(op_code =~= seq!["    imul rax, rbx"@]);
        } else if c == '/' {
            assert(op =~= "/"@);
            assert(op_code =~= seq!["    cqo"@, "    idiv rbx"@]);
        } else {
            assert(op =~= "%"@);
            assert(op_code =~= seq!["    cqo"@, "    idiv rbx"@, "    mov rax, rdx"@]);
        }
    }
}

/// The code of a `for` loop whose condition is an expression, in order:
/// the code of its initialisation, its start label, the code of its
/// condition, the exit test `cmp rax, 0` and `je` to the exit label, the
/// code of its body, the code of its increment, the jump back to the start
/// label, and the exit label. The two labels are fresh and different.
pub proof fn law_for_loop_code(
    g: GenView,
    init: StmtView,
    condition: ExprView,
    incr: StmtView,
    body: Seq<StmtView>,
)
    ensures
        ({
            let r = gen_stmt(
                g,
                StmtView::For {
                    init: Box::new(init),
                    cond: Box::new(StmtView::ExpressionStatement { expr: condition }),
                    incr: Box::new(incr),
                    body,
                },
            );
            let initialised = gen_for_init(g, init);
            let init_code = initialised.current.code.subrange(
                g.current.code.len() as int,
                initialised.current.code.len() as int,
            );
            let start = label_name(initialised.labels);
            let exit = label_name(initialised.labels + 1);
            let at_start = emit(take_labels(initialised, 1), start + ":"@);
            let tested = gen_expr(at_start, condition);
            let condition_code = tested.current.code.subrange(
                at_start.current.code.len() as int,
                tested.current.code.len() as int,
            );
            let entered = emit(emit(take_labels(tested, 1), "    cmp rax, 0"@), "    je "@ + exit);
            let ran = gen_stmts(entered, body);
            let body_code = ran.current.code.subrange(
                entered.current.code.len() as int,
                ran.current.code.len() as int,
            );
            let stepped = gen_stmt(ran, incr);
            let incr_code = stepped.current.code.subrange(
                ran.current.code.len() as int,
                stepped.current.code.len() as int,
            );
            &&& r.current.code == g.current.code + init_code + seq![start + ":"@] + condition_code
                + seq!["    cmp rax, 0"@, "    je "@ + exit] + body_code + incr_code + seq![
                "    jmp "@ + start,
                exit + ":"@,
            ]
            &&& start != exit
            &&& r.labels == stepped.labels
            &&& r.loop_var is None
        }),
{
    lemma_for_init_appends_code(g, init);
    let initialised = gen_for_init(g, init);
    let init_code = initialised.current.code.subrange(
        g.current.code.len() as int,
        initialised.current.code.len() as int,
    );
    assert(initialised.current.code =~= g.current.code + init_code);
    let start = label_name(initialised.labels);
    let exit = label_name(initialised.labels + 1);
    law_labels_distinct(initialised.labels, initialised.labels + 1);
    let at_start = emit(take_labels(initialised, 1), start + ":"@);
    lemma_expr_same_frame(at_start, condition);
    lemma_expr_grows(at_start, condition);
    let tested = gen_expr(at_start, condition);
    let condition_code = tested.current.code.subrange(
        at_start.current.code.len() as int,
        tested.current.code.len() as int,
    );
    assert(tested.current.code =~= at_start.current.code + condition_code);
    let entered = emit(emit(take_labels(tested, 1), "    cmp rax, 0"@), "    je "@ + exit);
    lemma_stmts_append_code(entered, body);
    let ran = gen_stmts(entered, body);
    let body_code = ran.current.code.subrange(
        entered.current.code.len() as int,
        ran.current.code.len() as int,
    );
    assert(ran.current.code =~= entered.current.code + body_code);
    law_statement_appends_code(ran, incr);
    let stepped = gen_stmt(ran, incr);
    let incr_code = stepped.current.code.subrange(
        ran.current.code.len() as int,
        stepped.current.code.len() as int,
    );
    assert(stepped.current.code =~= ran.current.code + incr_code);
    let r = gen_stmt(
        g,
        StmtView::For {
            init: Box::new(init),
            cond: Box::new(StmtView::ExpressionStatement { expr: condition }),
            incr: Box::new(incr),
            body,
        },
    );
    assert(r.current.code =~= g.current.code + init_code + seq![start + ":"@] + condition_code
        + seq!["    cmp rax, 0"@, "    je "@ + exit] + body_code + incr_code + seq![
        "    jmp "@ + start,
        exit + ":"@,
    ]);
}

proof fn lemma_find_local_in_slots(
    locals: Seq<(Seq<char>, int)>,
    slots: Seq<(Seq<char>, int)>,
    k: int,
)
    requires
        0 <= k < slots.len(),
        forall|j: int| k < j < slots.len() ==> (#[trigger] slots[j]).0 != slots[k].0,
    ensures
        find_local(locals + slots, slots[k].0) == Some(slots[k].1),
    decreases slots.len(),
{
    let all = locals + slots;
    assert(all.last() == slots.last());
    if k < slots.len() - 1 {
        assert(all.drop_last() =~= locals + slots.drop_last());
        lemma_find_local_in_slots(locals, slots.drop_last(), k);
    }
}

/// A function reads each parameter from where a call left its argument:
/// the call pushes the arguments in order, 8 bytes each, before the return
/// address and the saved frame base, so of `n` parameters the one at
/// position `k` is read from `16 + 8 * (n - 1 - k)` bytes above the frame
/// base. Shown on a body that only reads that parameter: the function's
/// section is the prologue, that one load, and the epilogue.
pub proof fn law_parameter_read_from_its_argument(
    g: GenView,
    name: Seq<char>,
    parameters: Seq<(Seq<char>, Seq<char>)>,
    return_type: Seq<char>,
    k: int,
)
    requires
        0 <= k < parameters.len(),
        forall|i: int, j: int|
            0 <= i < j < parameters.len() ==> (#[trigger] parameters[i]).0 != (#[trigger] parameters[j]).0,
        g.loop_var is None,
    ensures
        ({
            let body = seq![
                StmtView::ExpressionStatement { expr: ExprView::Ident(parameters[k].0) },
            ];
            let r = gen_stmt(
                g,
                StmtView::FunctionDeclaration { name, parameters, return_type, body },
            );
            r.program.sections.last() == SectionView {
                name: "f_"@ + name + ":"@,
                code: seq![
                    "    push rbp"@,
                    "    mov rbp, rsp"@,
                    "    sub rsp, 16"@,
                    "    mov rax, [rbp + "@ + int_text(16 + 8 * (parameters.len() - 1 - k)) + "]"@,
                    "    mov rsp, rbp"@,
                    "    pop rbp"@,
                    "    ret"@,
                ],
            }
        }),
{
    let slots = param_slots(parameters);
    assert forall|j: int| k < j < slots.len() implies (#[trigger] slots[j]).0 != slots[k].0 by {
        assert(parameters[k].0 != parameters[j].0);
    }
    lemma_find_local_in_slots(g.locals, slots, k);
    let body = seq![StmtView::ExpressionStatement { expr: ExprView::Ident(parameters[k].0) }];
    let ga = GenView { current: SectionView { name: "f_"@ + name + ":"@, code: seq![] }, ..g };
    let gb = emit(emit(emit(ga, "    push rbp"@), "    mov rbp, rsp"@), "    sub rsp, 16"@);
    let gc = GenView { locals: gb.locals + slots, in_function: true, local_offset: 4, ..gb };
    assert(gen_stmts(gc, body) == gen_stmt(gen_stmts(gc, body.drop_last()), body.last()));
    assert(body.drop_last() =~= Seq::<StmtView>::empty());
    let r = gen_stmt(g, StmtView::FunctionDeclaration { name, parameters, return_type, body });
    assert(r.program.sections.last().code =~= seq![
        "    push rbp"@,
        "    mov rbp, rsp"@,
        "    sub rsp, 16"@,
        "    mov rax, [rbp + "@ + int_text(16 + 8 * (parameters.len() - 1 - k)) + "]"@,
        "    mov rsp, rbp"@,
        "    pop rbp"@,
        "    ret"@,
    ]);
}

/// The code of one more case of a switch, after that of the cases before
/// it, in order: the code of the case's value, `mov rbx, rax`, the code of
/// the switch's condition, `cmp rax, rbx` and `jne` to a fresh label, the
/// code of the case's body, a jump to the switch's end label, and the fresh
/// label, where the next case or the default begins.
pub proof fn law_switch_case_code(
    g: GenView,
    condition: ExprView,
    end_label: Seq<char>,
    cases: Seq<(ExprView, Seq<StmtView>)>,
    value: ExprView,
    body: Seq<StmtView>,
)
    ensures
        ({
            let before = gen_cases(g, condition, end_label, cases);
            let r = gen_cases(g, condition, end_label, cases.push((value, body)));
            let next_label = label_name(before.labels);
            let valued = gen_expr(take_labels(before, 1), value);
            let value_code = valued.current.code.subrange(
                before.current.code.len() as int,
                valued.current.code.len() as int,
            );
            let moved = emit(valued, "    mov rbx, rax"@);
            let compared = gen_expr(moved, condition);
            let condition_code = compared.current.code.subrange(
                moved.current.code.len() as int,
                compared.current.code.len() as int,
            );
            let entered = emit(emit(compared, "    cmp rax, rbx"@), "    jne "@ + next_label);
            let ran = gen_stmts(entered, body);
            let body_code = ran.current.code.subrange(
                entered.current.code.len() as int,
                ran.current.code.len() as int,
            );
            &&& r.current.code == before.current.code + value_code + seq!["    mov rbx, rax"@]
                + condition_code + seq!["    cmp rax, rbx"@, "    jne "@ + next_label] + body_code
                + seq!["    jmp "@ + end_label, next_label + ":"@]
            &&& r.labels == ran.labels
        }),
{
    let all = cases.push((value, body));
    assert(all.drop_last() =~= cases);
    let before = gen_cases(g, condition, end_label, cases);
    let next_label = label_name(before.labels);
    lemma_expr_grows(take_labels(before, 1), value);
    let valued = gen_expr(take_labels(before, 1), value);
    let value_code = valued.current.code.subrange(
        before.current.code.len() as int,
        valued.current.code.len() as int,
    );
    assert(valued.current.code =~= before.current.code + value_code);
    let moved = emit(valued, "    mov rbx, rax"@);
    lemma_expr_grows(moved, condition);
    let compared = gen_expr(moved, condition);
    let condition_code = compared.current.code.subrange(
        moved.current.code.len() as int,
        compared.current.code.len() as int,
    );
    assert(compared.current.code =~= moved.current.code + condition_code);
    let entered = emit(emit(compared, "    cmp rax, rbx"@), "    jne "@ + next_label);
    lemma_stmts_append_code(entered, body);
    let ran = gen_stmts(entered, body);
    let body_code = ran.current.code.subrange(
        entered.current.code.len() as int,
        ran.current.code.len() as int,
    );
    assert(ran.current.code =~= entered.current.code + body_code);
    let r = gen_cases(g, condition, end_label, all);
    assert(r.current.code =~= before.current.code + value_code + seq!["    mov rbx, rax"@]
        + condition_code + seq!["    cmp rax, rbx"@, "    jne "@ + next_label] + body_code
        + seq!["    jmp "@ + end_label, next_label + ":"@]);
}

/// The code of a call of a function other than `print`, in order: the
/// code of the arguments, each followed by `push rax`, then `call` of the
/// function's label, then, when there are arguments, `add rsp` by 8 bytes
/// per argument, which takes them back off the stack.
pub proof fn law_call_code(g: GenView, name: Seq<char>, args: Seq<ExprView>)
    requires
        name != "print"@,
    ensures
        ({
            let pushed = gen_args(g, args);
            let args_code = pushed.current.code.subrange(
                g.current.code.len() as int,
                pushed.current.code.len() as int,
            );
            let r = gen_expr(g, ExprView::Call(name, args));
            &&& r.current.code == g.current.code + args_code + seq!["    call f_"@ + name] + (
            if args.len() > 0 {
                seq!["    add rsp, "@ + nat_text(8 * args.len())]
            } else {
                Seq::empty()
            })
            &&& stack_effect(pushed.current.code) == stack_effect(g.current.code) + args.len()
        }),
{
    lemma_args_grows(g, args);
    lemma_args_push_each(g, args);
    let pushed = gen_args(g, args);
    let args_code = pushed.current.code.subrange(
        g.current.code.len() as int,
        pushed.current.code.len() as int,
    );
    assert(pushed.current.code =~= g.current.code + args_code);
    let r = gen_expr(g, ExprView::Call(name, args));
    assert(r.current.code =~= g.current.code + args_code + seq!["    call f_"@ + name] + (
    if args.len() > 0 {
        seq!["    add rsp, "@ + nat_text(8 * args.len())]
    } else {
        Seq::empty()
    }));
}

/// The code of each call argument, in order, is followed by `push rax`:
/// the code of one more argument comes after that of those before it.
pub proof fn law_arguments_pushed_in_order(g: GenView, args: Seq<ExprView>, last: ExprView)
    ensures
        ({
            let before = gen_args(g, args);
            let computed = gen_expr(before, last);
            gen_args(g, args.push(last)).current.code == computed.current.code.push("    push rax"@)
                && before.current.code.is_prefix_of(computed.current.code)
        }),
{
    assert(args.push(last).drop_last() =~= args);
    lemma_expr_grows(gen_args(g, args), last);
}

} // verus!
