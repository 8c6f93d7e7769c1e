use vstd::prelude::*;

use crate::codegen::emission::{
    bss_lines, cases_size, data_lines, emit, emit_comparison, gen_global_inits, gen_program,
    gen_top_level, global_decls, lemma_global_inits_same_frame, emit_epilogue, emit_operator, find_literal, find_local,
    fits, gen_args, gen_cases, gen_expr, gen_for_init, gen_local_decl, gen_stmt, gen_stmts,
    ident_load_line, label_name, lemma_budget_trans, lemma_cases_budget, lemma_cases_size_prefix,
    lemma_expr_same_frame, lemma_fits_after, lemma_for_init_budget, lemma_stmt_budget,
    lemma_stmts_budget, lemma_stmts_size_prefix, literal_label, load_line, loop_var_name,
    param_slots, stmt_size, stmts_size, store_line, store_target_line, take_labels, within_budget,
    GenView,
};
use crate::codegen::models::assembly::{sections_view, AssemblyView, SectionCode, SectionView, ASM};
use crate::parser::models::ast::AST;
use crate::parser::models::expression::{exprs_view, lemma_exprs_view, ExprView, Expression};
use crate::parser::models::statement::{
    cases_view, lemma_cases_view, lemma_stmts_view, opt_expr_view, params_view, stmts_view,
    ForStatement, FunctionDeclaration, IfStatement, Statement, StmtView, SwitchCase,
    SwitchStatement, VarAffection, VarDeclaration, WhileStatement,
};
use crate::codegen::properties::{law_literal_label_keeps_wf, literals_wf};
use crate::text::{concat, concat3, nat_text, strings_view, text_eq, with_int, with_nat};

verus! {

/// Generates NASM assembly for x86-64 from a parsed program: global
/// variables go to the bss section, the top-level code to `f_main`, and
/// each function to a section of its own.
pub struct CodeGenerator {
    pub assembly: ASM,
    pub label_counter: usize,
    pub local_offset: i32,
    pub in_function: bool,
    pub local_vars: Vec<(String, i32)>,
    pub string_literals: Vec<(String, String)>,
    pub nb_for_boucle: usize,
    pub current_loop_var: Option<(String, String)>,
    pub current_section: SectionCode,
}

/// The names and stack offsets of local variables.
pub open spec fn locals_view(v: Seq<(String, i32)>) -> Seq<(Seq<char>, int)> {
    v.map_values(|e: (String, i32)| (e.0@, e.1 as int))
}

/// The string literals and their labels.
pub open spec fn literals_view(v: Seq<(String, String)>) -> Seq<(Seq<char>, Seq<char>)> {
    v.map_values(|e: (String, String)| (e.0@, e.1@))
}

/// The loop variable being renamed, and its new name.
pub open spec fn loop_var_view(v: &Option<(String, String)>) -> Option<(Seq<char>, Seq<char>)> {
    match v {
        Some(p) => Some((p.0@, p.1@)),
        None => None,
    }
}

impl View for CodeGenerator {
    type V = GenView;

    open spec fn view(&self) -> GenView {
        GenView {
            program: self.assembly@,
            labels: self.label_counter as nat,
            local_offset: self.local_offset as int,
            in_function: self.in_function,
            locals: locals_view(self.local_vars@),
            literals: literals_view(self.string_literals@),
            loops: self.nb_for_boucle as nat,
            loop_var: loop_var_view(&self.current_loop_var),
            current: self.current_section@,
        }
    }
}

/// The state of a generator that has generated nothing.
pub open spec fn initial_gen() -> GenView {
    GenView {
        program: AssemblyView {
            data: Seq::empty(),
            bss: Seq::empty(),
            text: Seq::empty(),
            sections: Seq::empty(),
        },
        labels: 0,
        local_offset: 4,
        in_function: false,
        locals: Seq::empty(),
        literals: Seq::empty(),
        loops: 0,
        loop_var: None,
        current: SectionView { name: Seq::empty(), code: Seq::empty() },
    }
}

/// Loads `rax` from a stack offset.
fn load_line_text(off: i32) -> (line: String)
    ensures
        line@ == load_line(off as int),
{
    if off >= 0 {
        with_int("    mov rax, [rbp + ", off as i64, "]")
    } else {
        with_int("    mov rax, [rbp - ", -(off as i64), "]")
    }
}

/// Stores `rax` at a stack offset.
fn store_line_text(off: i32) -> (line: String)
    ensures
        line@ == store_line(off as int),
{
    if off < 0 {
        with_int("    mov [rbp - ", -(off as i64), "], rax")
    } else {
        with_int("    mov [rbp + ", off as i64, "], rax")
    }
}

impl CodeGenerator {
    /// A generator that has generated nothing, whose first local slot is 4
    /// bytes below the frame base.
    pub fn new() -> (g: CodeGenerator)
        ensures
            g@ == initial_gen(),
            literals_wf(g@.literals),
    {
        let g = CodeGenerator {
            assembly: ASM::new(),
            label_counter: 0,
            local_offset: 4,
            in_function: false,
            local_vars: Vec::new(),
            string_literals: Vec::new(),
            nb_for_boucle: 0,
            current_loop_var: None,
            current_section: SectionCode::new(String::new()),
        };
        assert(locals_view(g.local_vars@) =~= Seq::empty());
        assert(literals_view(g.string_literals@) =~= Seq::empty());
        g
    }

    /// Appends an instruction to the section being filled.
    fn emit(&mut self, code: String)
        ensures
            final(self)@ == emit(old(self)@, code@),
    {
        let ghost before = self.current_section.code@;
        self.current_section.code.push(code);
        assert(strings_view(self.current_section.code@) =~= strings_view(before).push(code@));
    }

    /// A label of its own: `L` and the number of labels made before it.
    pub fn new_label(&mut self) -> (label: String)
        requires
            old(self).label_counter < usize::MAX,
        ensures
            label@ == label_name(old(self)@.labels),
            final(self)@ == take_labels(old(self)@, 1),
    {
        let label = with_nat("L", self.label_counter as u128, "");
        proof { reveal_strlit(""); }
        assert(label@ =~= label_name(self.label_counter as nat));
        self.label_counter += 1;
        label
    }

    /// The label of a string literal, made when it is new: `str_` and the
    /// number of literals known before it.
    pub fn get_or_create_string_literal(&mut self, s: &str) -> (label: String)
        ensures
            (label@, final(self)@) == literal_label(old(self)@, s@),
            literals_wf(old(self)@.literals) ==> literals_wf(final(self)@.literals),
    {
        proof {
            if literals_wf(self@.literals) {
                law_literal_label_keeps_wf(self@, s@);
            }
        }
        let ghost lits = literals_view(self.string_literals@);
        let mut i: usize = 0;
        assert(lits.skip(0) =~= lits);
        while i < self.string_literals.len()
            invariant
                i <= self.string_literals@.len(),
                lits == literals_view(self.string_literals@),
                find_literal(lits, s@) == find_literal(lits.skip(i as int), s@),
            decreases self.string_literals.len() - i,
        {
            assert(lits.skip(i as int).drop_first() =~= lits.skip(i + 1));
            if text_eq(self.string_literals[i].0.as_str(), s) {
                return self.string_literals[i].1.clone();
            }
            i += 1;
        }
        let label = with_nat("str_", self.string_literals.len() as u128, "");
        proof { reveal_strlit(""); }
        assert(label@ =~= "str_"@ + nat_text(lits.len()));
        let ghost before = self.string_literals@;
        self.string_literals.push((String::from_str(s), label.clone()));
        assert(literals_view(self.string_literals@) =~= literals_view(before).push((s@, label@)));
        label
    }

    /// The stack offset last given to `name`, if any.
    fn find_local(&self, name: &str) -> (r: Option<i32>)
        ensures
            match r {
                Some(off) => find_local(self@.locals, name@) == Some(off as int),
                None => find_local(self@.locals, name@) is None,
            },
    {
        let ghost locals = self@.locals;
        let mut i: usize = self.local_vars.len();
        assert(locals.take(i as int) =~= locals);
        while i > 0
            invariant
                i <= self.local_vars@.len(),
                locals == locals_view(self.local_vars@),
                find_local(locals, name@) == find_local(locals.take(i as int), name@),
            decreases i,
        {
            assert(locals.take(i as int).drop_last() =~= locals.take(i - 1));
            if text_eq(self.local_vars[i - 1].0.as_str(), name) {
                return Some(self.local_vars[i - 1].1);
            }
            i -= 1;
        }
        None
    }

    /// The instruction that loads a name into `rax`.
    fn ident_load_line(&self, name: &str) -> (line: String)
        ensures
            line@ == ident_load_line(self@, name@),
    {
        match &self.current_loop_var {
            Some(v) => {
                if text_eq(v.0.as_str(), name) {
                    return concat3("    mov rax, [", v.1.as_str(), "]");
                }
            },
            None => {},
        }
        match self.find_local(name) {
            Some(off) => load_line_text(off),
            None => concat3("    mov rax, [", name, "]"),
        }
    }

    /// A comparison of `rax` with `rbx` whose flag `set_line` turns into 0
    /// or 1.
    fn emit_comparison(&mut self, set_line: &str)
        ensures
            final(self)@ == emit_comparison(old(self)@, set_line@),
    {
        self.emit(String::from_str("    cmp rax, rbx"));
        self.emit(String::from_str(set_line));
        self.emit(String::from_str("    movzx rax, al"));
    }

    /// The instructions of a binary operator.
    fn emit_operator(&mut self, op: &str)
        ensures
            final(self)@ == emit_operator(old(self)@, op@),
    {
        if text_eq(op, "+") {
            self.emit(String::from_str("    add rax, rbx"));
        } else if text_eq(op, "-") {
            self.emit(String::from_str("    sub rax, rbx"));
        } else if text_eq(op, "*") {
            self.emit(String::from_str("    imul rax, rbx"));
        } else if text_eq(op, "/") {
            self.emit(String::from_str("    cqo"));
            self.emit(String::from_str("    idiv rbx"));
        } else if text_eq(op, "==") {
            self.emit_comparison("    sete al");
        } else if text_eq(op, "!=") {
            self.emit_comparison("    setne al");
        } else if text_eq(op, "<") {
            self.emit_comparison("    setl al");
        } else if text_eq(op, "<=") {
            self.emit_comparison("    setle al");
        } else if text_eq(op, ">") {
            self.emit_comparison("    setg al");
        } else if text_eq(op, ">=") {
            self.emit_comparison("    setge al");
        } else if text_eq(op, "&&") {
            self.emit(String::from_str("    and rax, rbx"));
        } else if text_eq(op, "||") {
            self.emit(String::from_str("    or rax, rbx"));
        } else if text_eq(op, "%") {
            self.emit(String::from_str("    cqo"));
            self.emit(String::from_str("    idiv rbx"));
            self.emit(String::from_str("    mov rax, rdx"));
        } else {
            self.emit(String::from_str("    ; Unsupported binary operator"));
        }
    }

    /// Generates the code of an expression, as `gen_expr` states.
    pub fn generate_expression(&mut self, expr: &Expression)
        ensures
            final(self)@ == gen_expr(old(self)@, expr@),
        decreases expr,
    {
        match expr {
            Expression::Str(s) => {
                let label = self.get_or_create_string_literal(s.as_str());
                self.emit(concat3("    lea rax, [rel ", label.as_str(), "]"));
            },
            Expression::Int(val) => {
                let line = with_int("    mov rax, ", *val, "");
                proof { reveal_strlit(""); }
                assert(line@ =~= "    mov rax, "@ + crate::text::int_text(*val as int));
                self.emit(line);
            },
            Expression::Float(val) => {
                self.emit(concat("    mov rax, ", val.as_str()));
            },
            Expression::Bool(val) => {
                if *val {
                    self.emit(String::from_str("    mov rax, 1"));
                } else {
                    self.emit(String::from_str("    mov rax, 0"));
                }
            },
            Expression::Ident(name) => {
                let line = self.ident_load_line(name.as_str());
                self.emit(line);
            },
            Expression::Binary(bin_expr) => {
                self.generate_expression(&bin_expr.left);
                self.emit(String::from_str("    push rax"));
                self.generate_expression(&bin_expr.right);
                self.emit(String::from_str("    pop rbx"));
                self.emit(String::from_str("    xchg rax, rbx"));
                self.emit_operator(bin_expr.op.as_str());
            },
            Expression::FunctionCall(call) => {
                proof { lemma_exprs_view(call.arguments@); }
                if text_eq(call.name.as_str(), "print") {
                    if call.arguments.len() == 1 {
                        proof { assert(decreases_to!(call.arguments => call.arguments@[0])); }
                        self.generate_expression(&call.arguments[0]);
                        self.emit(String::from_str("    lea rdi, [rel format]"));
                        self.emit(String::from_str("    mov rsi, rax"));
                        self.emit(String::from_str("    xor rax, rax"));
                        self.emit(String::from_str("    call printf"));
                    }
                } else {
                    self.generate_arguments(&call.arguments);
                    self.emit(concat("    call f_", call.name.as_str()));
                    if call.arguments.len() > 0 {
                        let line = with_nat("    add rsp, ", 8 * (call.arguments.len() as u128), "");
                        proof { reveal_strlit(""); }
                        assert(line@ =~= "    add rsp, "@ + nat_text(8 * call.arguments@.len()));
                        self.emit(line);
                    }
                }
            },
        }
    }

    /// Generates each argument of a call and pushes its value, in order.
    fn generate_arguments(&mut self, args: &Vec<Expression>)
        ensures
            final(self)@ == gen_args(old(self)@, exprs_view(args@)),
        decreases args,
    {
        let ghost g0 = self@;
        let mut i: usize = 0;
        assert(exprs_view(args@.take(0)) =~= Seq::empty());
        while i < args.len()
            invariant
                i <= args@.len(),
                self@ == gen_args(g0, exprs_view(args@.take(i as int))),
            decreases args.len() - i,
        {
            proof {
                assert(decreases_to!(args => args@[i as int]));
                assert(args@.take(i + 1).drop_last() =~= args@.take(i as int));
            }
            self.generate_expression(&args[i]);
            self.emit(String::from_str("    push rax"));
            proof {
                let prev = exprs_view(args@.take(i as int));
                assert(exprs_view(args@.take(i + 1)) == prev.push(args@[i as int]@));
                assert(prev.push(args@[i as int]@).drop_last() =~= prev);
            }
            i += 1;
        }
        assert(args@.take(args@.len() as int) =~= args@);
    }
}

impl CodeGenerator {
    /// The instruction that stores `rax` in the variable `name`.
    fn store_target_line(&self, name: &str) -> (line: String)
        ensures
            line@ == store_target_line(self@, name@),
    {
        match &self.current_loop_var {
            Some(v) => {
                if text_eq(v.0.as_str(), name) {
                    return concat3("    mov [", v.1.as_str(), "], rax");
                }
            },
            None => {},
        }
        if self.in_function {
            match self.find_local(name) {
                Some(off) => store_line_text(off),
                None => concat3("    mov [", name, "], rax"),
            }
        } else {
            concat3("    mov [", name, "], rax")
        }
    }

    /// Restores the stack frame and returns.
    fn emit_epilogue(&mut self)
        ensures
            final(self)@ == emit_epilogue(old(self)@),
    {
        self.emit(String::from_str("    mov rsp, rbp"));
        self.emit(String::from_str("    pop rbp"));
        self.emit(String::from_str("    ret"));
    }

    /// Generates the code of a statement, as `gen_stmt` states.
    pub fn generate_statement(&mut self, stmt: &Statement)
        requires
            fits(old(self)@, stmt_size(stmt@)),
        ensures
            final(self)@ == gen_stmt(old(self)@, stmt@),
        decreases stmt,
    {
        match stmt {
            Statement::VarDeclaration(var_decl) => {
                if self.in_function {
                    self.generate_local_var_declaration(var_decl);
                }
            },
            Statement::VarAffection(var_affection) => self.generate_var_affection(var_affection),
            Statement::ExpressionStatement(expr) => self.generate_expression(expr),
            Statement::Return(expr_opt) => self.generate_return(expr_opt),
            Statement::If(if_stmt) => self.generate_if_statement(if_stmt),
            Statement::For(for_stmt) => self.generate_for_statement(for_stmt),
            Statement::While(while_stmt) => self.generate_while_statement(while_stmt),
            Statement::Switch(switch_stmt) => self.generate_switch_statement(switch_stmt),
            Statement::FunctionDeclaration(func_decl) => self.generate_function_declaration(func_decl),
        }
    }

    /// Generates statements in order, as `gen_stmts` states.
    fn generate_block(&mut self, stmts: &Vec<Statement>)
        requires
            fits(old(self)@, stmts_size(stmts_view(stmts@))),
        ensures
            final(self)@ == gen_stmts(old(self)@, stmts_view(stmts@)),
        decreases stmts,
    {
        let ghost g0 = self@;
        let ghost sv = stmts_view(stmts@);
        proof { lemma_stmts_view(stmts@); }
        let mut i: usize = 0;
        assert(sv.take(0) =~= Seq::<StmtView>::empty());
        while i < stmts.len()
            invariant
                i <= stmts@.len(),
                sv == stmts_view(stmts@),
                sv.len() == stmts@.len(),
                forall|j: int| 0 <= j < stmts@.len() ==> #[trigger] sv[j] == stmts@[j]@,
                fits(g0, stmts_size(sv)),
                self@ == gen_stmts(g0, sv.take(i as int)),
                within_budget(g0, self@, stmts_size(sv.take(i as int))),
            decreases stmts.len() - i,
        {
            proof {
                assert(decreases_to!(stmts => stmts@[i as int]));
                lemma_stmts_size_prefix(sv, i as int);
                lemma_stmts_size_prefix(sv, i + 1);
                lemma_fits_after(g0, self@, stmts_size(sv.take(i as int)), (stmts_size(sv) - stmts_size(sv.take(i as int))) as nat);
                lemma_stmt_budget(self@, sv[i as int]);
            }
            let ghost gi = self@;
            self.generate_statement(&stmts[i]);
            proof {
                assert(sv.take(i + 1).drop_last() =~= sv.take(i as int));
                lemma_budget_trans(g0, gi, self@, stmts_size(sv.take(i as int)), stmt_size(sv[i as int]));
            }
            i += 1;
        }
        assert(sv.take(sv.len() as int) =~= sv);
    }

    /// Generates a declaration inside a function, as `gen_local_decl`
    /// states.
    fn generate_local_var_declaration(&mut self, var_decl: &VarDeclaration)
        requires
            fits(old(self)@, 1),
        ensures
            final(self)@ == gen_local_decl(old(self)@, var_decl.name@, opt_expr_view(&var_decl.init)),
    {
        let ghost g0 = self@;
        match &var_decl.init {
            Some(init_expr) => {
                self.generate_expression(init_expr);
                proof { lemma_expr_same_frame(g0, init_expr@); }
            },
            None => self.emit(String::from_str("    mov rax, 0")),
        }
        match self.find_local(var_decl.name.as_str()) {
            None => {
                let ghost before = self.local_vars@;
                self.local_vars.push((var_decl.name.clone(), -self.local_offset));
                assert(locals_view(self.local_vars@) =~= locals_view(before).push((var_decl.name@, -self.local_offset)));
                self.emit(with_int("    mov [rbp - ", self.local_offset as i64, "], rax"));
                self.local_offset += 4;
            },
            Some(off) => {
                self.emit(store_line_text(off));
            },
        }
    }

    /// Generates an assignment: the value, then its store.
    fn generate_var_affection(&mut self, var_affection: &VarAffection)
        requires
            fits(old(self)@, 1),
        ensures
            final(self)@ == gen_stmt(old(self)@, Statement::VarAffection(*var_affection)@),
    {
        self.generate_expression(&var_affection.value);
        let line = self.store_target_line(var_affection.name.as_str());
        self.emit(line);
    }

    /// Generates a return: the value, if any, then the epilogue.
    fn generate_return(&mut self, expr_opt: &Option<Expression>)
        requires
            fits(old(self)@, 1),
        ensures
            final(self)@ == gen_stmt(old(self)@, Statement::Return(*expr_opt)@),
    {
        match expr_opt {
            Some(expr) => self.generate_expression(expr),
            None => {},
        }
        self.emit_epilogue();
    }

    /// Generates an `if`: a jump to the else branch when the condition is
    /// 0, and from the end of the then branch to the end.
    fn generate_if_statement(&mut self, if_stmt: &IfStatement)
        requires
            fits(old(self)@, stmt_size(Statement::If(*if_stmt)@)),
        ensures
            final(self)@ == gen_stmt(old(self)@, Statement::If(*if_stmt)@),
        decreases if_stmt,
    {
        let ghost g0 = self@;
        let ghost then_size = stmts_size(stmts_view(if_stmt.then_branch@));
        let ghost else_size: nat = match &if_stmt.else_branch {
            Some(b) => stmts_size(stmts_view(b@)),
            None => 0,
        };
        self.generate_expression(&if_stmt.condition);
        proof { lemma_expr_same_frame(g0, if_stmt.condition@); }
        let else_label = self.new_label();
        let end_label = self.new_label();
        self.emit(String::from_str("    cmp rax, 0"));
        self.emit(concat("    je ", else_label.as_str()));
        let ghost g2 = self@;
        proof { lemma_fits_after(g0, g2, 1, then_size + else_size); }
        self.generate_block(&if_stmt.then_branch);
        proof { lemma_stmts_budget(g2, stmts_view(if_stmt.then_branch@)); }
        self.emit(concat("    jmp ", end_label.as_str()));
        self.emit(concat(else_label.as_str(), ":"));
        proof { lemma_fits_after(g2, self@, then_size, else_size); }
        match &if_stmt.else_branch {
            Some(else_branch) => self.generate_block(else_branch),
            None => {},
        }
        self.emit(concat(end_label.as_str(), ":"));
    }

    /// Declares the variable of a `for` loop: it gets a global of its own,
    /// its name followed by the loop's number, which takes its initial value.
    fn generate_loop_variable(&mut self, var_decl: &VarDeclaration)
        requires
            fits(old(self)@, 1),
        ensures
            final(self)@ == gen_for_init(old(self)@, Statement::VarDeclaration(*var_decl)@),
    {
        self.nb_for_boucle += 1;
        let internal_var = with_nat(var_decl.name.as_str(), self.nb_for_boucle as u128, "");
        proof {
            reveal_strlit("");
            assert(internal_var@ =~= loop_var_name(var_decl.name@, self.nb_for_boucle as nat));
        }
        self.current_loop_var = Some((var_decl.name.clone(), internal_var.clone()));
        let ghost ga = self@;
        match &var_decl.init {
            Some(init_expr) => {
                self.generate_expression(init_expr);
                proof { lemma_expr_same_frame(ga, init_expr@); }
            },
            None => self.emit(String::from_str("    mov rax, 0")),
        }
        self.emit(concat3("    mov [", internal_var.as_str(), "], rax"));
        let ghost bss = self.assembly.section_bss@;
        let line = concat3("    ", internal_var.as_str(), " resq 1");
        self.assembly.section_bss.push(line);
        assert(strings_view(self.assembly.section_bss@) =~= strings_view(bss).push(line@));
    }

    /// Generates a `for`: its initialisation (a declared loop variable gets
    /// a global of its own, its name followed by the loop's number), then the
    /// test of the condition, the body and the increment, looping back to
    /// the test.
    #[verifier::rlimit(40)]
    fn generate_for_statement(&mut self, for_stmt: &ForStatement)
        requires
            fits(old(self)@, stmt_size(Statement::For(*for_stmt)@)),
        ensures
            final(self)@ == gen_stmt(old(self)@, Statement::For(*for_stmt)@),
        decreases for_stmt,
    {
        let ghost g0 = self@;
        let ghost init_size = stmt_size(for_stmt.init@);
        let ghost body_size = stmts_size(stmts_view(for_stmt.body@));
        let ghost incr_size = stmt_size(for_stmt.incr@);
        proof { lemma_for_init_budget(g0, for_stmt.init@); }
        match &*for_stmt.init {
            Statement::VarDeclaration(var_decl) => self.generate_loop_variable(var_decl),
            _ => self.generate_statement(&for_stmt.init),
        }
        let ghost g1 = self@;
        assert(g1 == gen_for_init(g0, for_stmt.init@));
        proof { lemma_fits_after(g0, g1, init_size, 1 + body_size + incr_size); }
        let start_label = self.new_label();
        self.emit(concat(start_label.as_str(), ":"));
        match &*for_stmt.cond {
            Statement::ExpressionStatement(cond_expr) => {
                let ghost g2 = self@;
                self.generate_expression(cond_expr);
                proof { lemma_expr_same_frame(g2, cond_expr@); }
                let exit_label = self.new_label();
                self.emit(String::from_str("    cmp rax, 0"));
                self.emit(concat("    je ", exit_label.as_str()));
                let ghost gb = self@;
                proof {
                    assert(within_budget(g1, gb, 1));
                    lemma_fits_after(g1, gb, 1, body_size + incr_size);
                }
                self.generate_block(&for_stmt.body);
                proof {
                    lemma_stmts_budget(gb, stmts_view(for_stmt.body@));
                    lemma_fits_after(gb, self@, body_size, incr_size);
                }
                self.generate_statement(&for_stmt.incr);
                self.emit(concat("    jmp ", start_label.as_str()));
                self.emit(concat(exit_label.as_str(), ":"));
            },
            _ => {
                self.emit(String::from_str("    ; For-loop condition must be an expression statement"));
            },
        }
        let ghost g2 = emit(take_labels(g1, 1), label_name(g1.labels) + ":"@);
        assert(self@ == match for_stmt.cond@ {
            StmtView::ExpressionStatement { expr } => {
                let ga = gen_expr(g2, expr);
                let exit_label = label_name(ga.labels);
                let gb = emit(emit(take_labels(ga, 1), "    cmp rax, 0"@), "    je "@ + exit_label);
                let gc = gen_stmt(gen_stmts(gb, stmts_view(for_stmt.body@)), for_stmt.incr@);
                emit(emit(gc, "    jmp "@ + label_name(g1.labels)), exit_label + ":"@)
            },
            _ => emit(g2, "    ; For-loop condition must be an expression statement"@),
        });
        self.current_loop_var = None;
    }

    /// Generates a `while`: the test of the condition, a jump out when it
    /// is 0, the body, and a jump back to the test.
    fn generate_while_statement(&mut self, while_stmt: &WhileStatement)
        requires
            fits(old(self)@, stmt_size(Statement::While(*while_stmt)@)),
        ensures
            final(self)@ == gen_stmt(old(self)@, Statement::While(*while_stmt)@),
        decreases while_stmt,
    {
        let ghost g0 = self@;
        let start_label = self.new_label();
        self.emit(concat(start_label.as_str(), ":"));
        let ghost g1 = self@;
        self.generate_expression(&while_stmt.condition);
        proof { lemma_expr_same_frame(g1, while_stmt.condition@); }
        let exit_label = self.new_label();
        self.emit(String::from_str("    cmp rax, 0"));
        self.emit(concat("    je ", exit_label.as_str()));
        proof { lemma_fits_after(g0, self@, 1, stmts_size(stmts_view(while_stmt.body@))); }
        self.generate_block(&while_stmt.body);
        self.emit(concat("    jmp ", start_label.as_str()));
        self.emit(concat(exit_label.as_str(), ":"));
    }
}

impl CodeGenerator {
    /// Generates a `switch`: each case in turn, then the default body, then
    /// the end label that each case jumps to once run.
    fn generate_switch_statement(&mut self, switch_stmt: &SwitchStatement)
        requires
            fits(old(self)@, stmt_size(Statement::Switch(*switch_stmt)@)),
        ensures
            final(self)@ == gen_stmt(old(self)@, Statement::Switch(*switch_stmt)@),
        decreases switch_stmt,
    {
        let ghost g0 = self@;
        let ghost cases_total = cases_size(cases_view(switch_stmt.cases@));
        let ghost default_size: nat = match &switch_stmt.default {
            Some(b) => stmts_size(stmts_view(b@)),
            None => 0,
        };
        self.generate_expression(&switch_stmt.condition);
        proof { lemma_expr_same_frame(g0, switch_stmt.condition@); }
        let end_label = self.new_label();
        let ghost g1 = self@;
        proof { lemma_fits_after(g0, g1, 1, cases_total + default_size); }
        self.generate_cases(&switch_stmt.cases, &switch_stmt.condition, end_label.as_str());
        proof {
            lemma_cases_budget(g1, switch_stmt.condition@, end_label@, cases_view(switch_stmt.cases@));
            lemma_fits_after(g1, self@, cases_total, default_size);
        }
        match &switch_stmt.default {
            Some(default_body) => self.generate_block(default_body),
            None => {},
        }
        self.emit(concat(end_label.as_str(), ":"));
    }

    /// Generates the cases of a switch on `condition`, as `gen_cases`
    /// states.
    fn generate_cases(&mut self, cases: &Vec<SwitchCase>, condition: &Expression, end_label: &str)
        requires
            fits(old(self)@, cases_size(cases_view(cases@))),
        ensures
            final(self)@ == gen_cases(old(self)@, condition@, end_label@, cases_view(cases@)),
        decreases cases,
    {
        let ghost g0 = self@;
        let ghost cv = cases_view(cases@);
        proof { lemma_cases_view(cases@); }
        let mut i: usize = 0;
        assert(cv.take(0) =~= Seq::<(crate::parser::models::expression::ExprView, Seq<StmtView>)>::empty());
        while i < cases.len()
            invariant
                i <= cases@.len(),
                cv == cases_view(cases@),
                cv.len() == cases@.len(),
                forall|j: int|
                    0 <= j < cases@.len() ==> #[trigger] cv[j] == (cases@[j].value@, stmts_view(cases@[j].body@)),
                fits(g0, cases_size(cv)),
                self@ == gen_cases(g0, condition@, end_label@, cv.take(i as int)),
                within_budget(g0, self@, cases_size(cv.take(i as int))),
            decreases cases.len() - i,
        {
            let case = &cases[i];
            let ghost gi = self@;
            let ghost body_size = stmts_size(cv[i as int].1);
            proof {
                assert(decreases_to!(cases => cases@[i as int]));
                assert(decreases_to!(cases@[i as int] => cases@[i as int].body));
                lemma_cases_size_prefix(cv, i as int);
                lemma_cases_size_prefix(cv, i + 1);
                lemma_fits_after(g0, gi, cases_size(cv.take(i as int)), (cases_size(cv) - cases_size(cv.take(i as int))) as nat);
                assert(cv.take(i + 1).drop_last() =~= cv.take(i as int));
            }
            let case_label = self.new_label();
            let ghost ga = self@;
            self.generate_expression(&case.value);
            proof { lemma_expr_same_frame(ga, case.value@); }
            self.emit(String::from_str("    mov rbx, rax"));
            let ghost gb = self@;
            self.generate_expression(condition);
            proof { lemma_expr_same_frame(gb, condition@); }
            self.emit(String::from_str("    cmp rax, rbx"));
            self.emit(concat("    jne ", case_label.as_str()));
            let ghost g3 = self@;
            proof { lemma_fits_after(gi, g3, 1, body_size); }
            self.generate_block(&case.body);
            proof {
                lemma_stmts_budget(g3, cv[i as int].1);
                lemma_budget_trans(gi, g3, self@, 1, body_size);
            }
            self.emit(concat("    jmp ", end_label));
            self.emit(concat(case_label.as_str(), ":"));
            proof {
                lemma_budget_trans(g0, gi, self@, cases_size(cv.take(i as int)), 1 + body_size);
            }
            i += 1;
        }
        assert(cv.take(cv.len() as int) =~= cv);
    }

    /// Generates a function in a section of its own, labelled `f_` and its
    /// name: the prologue, which reserves 16 bytes of stack, the parameters
    /// in the slots where a call pushed them (the last at 16 bytes above the
    /// frame base), the body with its locals from 4 bytes below the frame
    /// base, and the epilogue.
    fn generate_function_declaration(&mut self, func_decl: &FunctionDeclaration)
        requires
            fits(old(self)@, stmt_size(Statement::FunctionDeclaration(*func_decl)@)),
        ensures
            final(self)@ == gen_stmt(old(self)@, Statement::FunctionDeclaration(*func_decl)@),
        decreases func_decl,
    {
        let ghost g0 = self@;
        let ghost pv = params_view(func_decl.parameters@);
        let mut saved = SectionCode::new(concat3("f_", func_decl.name.as_str(), ":"));
        std::mem::swap(&mut saved, &mut self.current_section);
        self.emit(String::from_str("    push rbp"));
        self.emit(String::from_str("    mov rbp, rsp"));
        self.emit(String::from_str("    sub rsp, 16"));
        let ghost gb = self@;
        let n = func_decl.parameters.len();
        let mut k: usize = 0;
        assert(param_slots(pv).take(0) =~= Seq::<(Seq<char>, int)>::empty());
        assert(gb.locals + Seq::<(Seq<char>, int)>::empty() =~= gb.locals);
        while k < n
            invariant
                k <= n,
                n == func_decl.parameters@.len(),
                pv == params_view(func_decl.parameters@),
                16 + 8 * n <= i32::MAX,
                self@ == (GenView { locals: gb.locals + param_slots(pv).take(k as int), ..gb }),
            decreases n - k,
        {
            let slot = (16 + 8 * (n - 1 - k)) as i32;
            let ghost before = self.local_vars@;
            self.local_vars.push((func_decl.parameters[k].name.clone(), slot));
            proof {
                let entry = (pv[k as int].0, 16 + 8 * (pv.len() - 1 - k));
                assert(slot as int == 16 + 8 * (pv.len() - 1 - k));
                assert(locals_view(self.local_vars@) =~= locals_view(before).push((func_decl.parameters@[k as int].name@, slot as int)));
                assert(param_slots(pv).take(k + 1) =~= param_slots(pv).take(k as int).push(entry));
                assert(gb.locals + param_slots(pv).take(k + 1) =~= (gb.locals + param_slots(pv).take(k as int)).push(entry));
            }
            k += 1;
        }
        assert(param_slots(pv).take(pv.len() as int) =~= param_slots(pv));
        self.in_function = true;
        self.local_offset = 4;
        let ghost gc = self@;
        assert(gc == (GenView { locals: gb.locals + param_slots(pv), in_function: true, local_offset: 4, ..gb }));
        self.generate_block(&func_decl.body);
        self.emit_epilogue();
        self.in_function = false;
        self.local_vars = Vec::new();
        assert(locals_view(self.local_vars@) =~= Seq::empty());
        std::mem::swap(&mut saved, &mut self.current_section);
        let ghost sections = self.assembly.sections_code@;
        self.assembly.sections_code.push(saved);
        assert(sections_view(self.assembly.sections_code@) =~= sections_view(sections).push(saved@));
    }
}

impl CodeGenerator {
    /// Writes the data section: the `printf` format, then each string
    /// literal known so far with its label.
    fn push_data_section(&mut self)
        ensures
            final(self)@ == (GenView {
                program: AssemblyView {
                    data: old(self)@.program.data + seq!["section .data"@, "    format: db \"%d\", 10, 0"@]
                        + data_lines(old(self)@.literals),
                    ..old(self)@.program
                },
                ..old(self)@
            }),
    {
        self.assembly.section_data.push(String::from_str("section .data"));
        self.assembly.section_data.push(String::from_str("    format: db \"%d\", 10, 0"));
        let ghost data0 = strings_view(self.assembly.section_data@);
        assert(data0 =~= old(self)@.program.data + seq!["section .data"@, "    format: db \"%d\", 10, 0"@]);
        let ghost lits = old(self)@.literals;
        let mut i: usize = 0;
        while i < self.string_literals.len()
            invariant
                i <= self.string_literals@.len(),
                lits == literals_view(self.string_literals@),
                strings_view(self.assembly.section_data@) == data0 + data_lines(lits).take(i as int),
                self.assembly.section_bss == old(self).assembly.section_bss,
                self.assembly.section_text == old(self).assembly.section_text,
                self.assembly.sections_code == old(self).assembly.sections_code,
                self.label_counter == old(self).label_counter,
                self.local_offset == old(self).local_offset,
                self.in_function == old(self).in_function,
                self.local_vars == old(self).local_vars,
                self.nb_for_boucle == old(self).nb_for_boucle,
                self.current_loop_var == old(self).current_loop_var,
                self.current_section == old(self).current_section,
                self.string_literals == old(self).string_literals,
            decreases self.string_literals.len() - i,
        {
            let entry = &self.string_literals[i];
            let mut line = String::from_str("    ");
            line.append(entry.1.as_str());
            line.append(": db \"");
            line.append(entry.0.as_str());
            line.append("\", 0");
            let ghost before = self.assembly.section_data@;
            self.assembly.section_data.push(line);
            assert(strings_view(self.assembly.section_data@) =~= strings_view(before).push(line@));
            assert(data_lines(lits).take(i + 1) =~= data_lines(lits).take(i as int).push(line@));
            i += 1;
        }
        assert(data_lines(lits).take(lits.len() as int) =~= data_lines(lits));
    }

    /// Opens the bss section, with a quadword for each global when
    /// `with_globals` holds.
    fn push_bss_section(&mut self, ast: &AST, with_globals: bool)
        ensures
            final(self)@ == (GenView {
                program: AssemblyView {
                    bss: old(self)@.program.bss + seq!["section .bss"@] + bss_lines(
                        if with_globals {
                            global_decls(ast@)
                        } else {
                            Seq::empty()
                        },
                    ),
                    ..old(self)@.program
                },
                ..old(self)@
            }),
    {
        let ghost sv = ast@;
        proof { lemma_stmts_view(ast.statements@); }
        let ghost bss0 = strings_view(self.assembly.section_bss@);
        self.assembly.section_bss.push(String::from_str("section .bss"));
        assert(strings_view(self.assembly.section_bss@) =~= bss0 + seq!["section .bss"@]);
        let ghost bss1 = bss0 + seq!["section .bss"@];
        if with_globals {
            let mut k: usize = 0;
            assert(sv.take(0) =~= Seq::<StmtView>::empty());
            assert(bss_lines(global_decls(sv.take(0))) =~= Seq::<Seq<char>>::empty());
            assert(bss1 + Seq::<Seq<char>>::empty() =~= bss1);
            while k < ast.statements.len()
                invariant
                    k <= ast.statements@.len(),
                    sv == stmts_view(ast.statements@),
                    sv.len() == ast.statements@.len(),
                    forall|j: int| 0 <= j < ast.statements@.len() ==> #[trigger] sv[j] == ast.statements@[j]@,
                    strings_view(self.assembly.section_bss@) == bss1 + bss_lines(global_decls(sv.take(k as int))),
                    self.assembly.section_data == old(self).assembly.section_data,
                    self.assembly.section_text == old(self).assembly.section_text,
                    self.assembly.sections_code == old(self).assembly.sections_code,
                    self.label_counter == old(self).label_counter,
                    self.local_offset == old(self).local_offset,
                    self.in_function == old(self).in_function,
                    self.local_vars == old(self).local_vars,
                    self.nb_for_boucle == old(self).nb_for_boucle,
                    self.current_loop_var == old(self).current_loop_var,
                    self.current_section == old(self).current_section,
                    self.string_literals == old(self).string_literals,
                decreases ast.statements.len() - k,
            {
                assert(sv.take(k + 1).drop_last() =~= sv.take(k as int));
                match &ast.statements[k] {
                    Statement::VarDeclaration(var_decl) => {
                        let line = concat3("    ", var_decl.name.as_str(), " resq 1");
                        let ghost before = self.assembly.section_bss@;
                        self.assembly.section_bss.push(line);
                        assert(strings_view(self.assembly.section_bss@) =~= strings_view(before).push(line@));
                        assert(bss_lines(global_decls(sv.take(k + 1))) =~= bss_lines(global_decls(sv.take(k as int))).push(line@));
                    },
                    _ => {},
                }
                k += 1;
            }
            assert(sv.take(sv.len() as int) =~= sv);
        } else {
            assert(bss_lines(Seq::<(Seq<char>, Option<ExprView>)>::empty()) =~= Seq::<Seq<char>>::empty());
            assert(bss1 + Seq::<Seq<char>>::empty() =~= bss1);
        }
    }

    /// Opens the text section, whose entry point jumps to `f_main`.
    fn push_text_section(&mut self)
        ensures
            final(self)@ == (GenView {
                program: AssemblyView {
                    text: old(self)@.program.text + seq![
                        "section .text"@,
                        "global _start"@,
                        "extern printf"@,
                        Seq::<char>::empty(),
                        "_start:"@,
                        "    jmp f_main"@,
                    ],
                    ..old(self)@.program
                },
                ..old(self)@
            }),
    {
        let ghost text0 = strings_view(self.assembly.section_text@);
        self.assembly.section_text.push(String::from_str("section .text"));
        self.assembly.section_text.push(String::from_str("global _start"));
        self.assembly.section_text.push(String::from_str("extern printf"));
        self.assembly.section_text.push(String::new());
        self.assembly.section_text.push(String::from_str("_start:"));
        self.assembly.section_text.push(String::from_str("    jmp f_main"));
        assert(strings_view(self.assembly.section_text@) =~= text0 + seq![
            "section .text"@,
            "global _start"@,
            "extern printf"@,
            Seq::<char>::empty(),
            "_start:"@,
            "    jmp f_main"@,
        ]);
    }

    /// Gives the globals that have one their initial value, as
    /// `gen_global_inits` states.
    fn generate_global_inits(&mut self, ast: &AST)
        ensures
            final(self)@ == gen_global_inits(old(self)@, global_decls(ast@)),
    {
        let ghost g1 = self@;
        let ghost sv = ast@;
        proof { lemma_stmts_view(ast.statements@); }
        let mut k: usize = 0;
        assert(sv.take(0) =~= Seq::<StmtView>::empty());
        while k < ast.statements.len()
            invariant
                k <= ast.statements@.len(),
                sv == stmts_view(ast.statements@),
                sv.len() == ast.statements@.len(),
                forall|j: int| 0 <= j < ast.statements@.len() ==> #[trigger] sv[j] == ast.statements@[j]@,
                self@ == gen_global_inits(g1, global_decls(sv.take(k as int))),
            decreases ast.statements.len() - k,
        {
            assert(sv.take(k + 1).drop_last() =~= sv.take(k as int));
            match &ast.statements[k] {
                Statement::VarDeclaration(var_decl) => {
                    let ghost gl = global_decls(sv.take(k as int));
                    assert(global_decls(sv.take(k + 1)) == gl.push((var_decl.name@, opt_expr_view(&var_decl.init))));
                    assert(gl.push((var_decl.name@, opt_expr_view(&var_decl.init))).drop_last() =~= gl);
                    match &var_decl.init {
                        Some(init_expr) => {
                            self.generate_expression(init_expr);
                            self.emit(concat3("    mov [", var_decl.name.as_str(), "], rax"));
                        },
                        None => {},
                    }
                },
                _ => {},
            }
            k += 1;
        }
        assert(sv.take(sv.len() as int) =~= sv);
    }

    /// Generates the top-level statements but the declarations, as
    /// `gen_top_level` states.
    fn generate_top_level(&mut self, ast: &AST)
        requires
            fits(old(self)@, stmts_size(ast@)),
        ensures
            final(self)@ == gen_top_level(old(self)@, ast@),
    {
        let ghost g2 = self@;
        let ghost sv = ast@;
        proof { lemma_stmts_view(ast.statements@); }
        let mut k: usize = 0;
        assert(sv.take(0) =~= Seq::<StmtView>::empty());
        while k < ast.statements.len()
            invariant
                k <= ast.statements@.len(),
                sv == stmts_view(ast.statements@),
                sv.len() == ast.statements@.len(),
                forall|j: int| 0 <= j < ast.statements@.len() ==> #[trigger] sv[j] == ast.statements@[j]@,
                fits(g2, stmts_size(sv)),
                self@ == gen_top_level(g2, sv.take(k as int)),
                within_budget(g2, self@, stmts_size(sv.take(k as int))),
            decreases ast.statements.len() - k,
        {
            let ghost gk = self@;
            proof {
                assert(sv.take(k + 1).drop_last() =~= sv.take(k as int));
                lemma_stmts_size_prefix(sv, k as int);
                lemma_stmts_size_prefix(sv, k + 1);
                lemma_fits_after(g2, gk, stmts_size(sv.take(k as int)), (stmts_size(sv) - stmts_size(sv.take(k as int))) as nat);
                lemma_stmt_budget(gk, sv[k as int]);
            }
            match &ast.statements[k] {
                Statement::VarDeclaration(_) => {},
                stmt => {
                    self.generate_statement(stmt);
                },
            }
            proof {
                lemma_budget_trans(g2, gk, self@, stmts_size(sv.take(k as int)), stmt_size(sv[k as int]));
            }
            k += 1;
        }
        assert(sv.take(sv.len() as int) =~= sv);
    }

    /// Generates a whole program, as `gen_program` states.
    pub fn generate(&mut self, ast: &AST)
        requires
            fits(old(self)@, stmts_size(ast@)),
        ensures
            final(self)@ == gen_program(old(self)@, ast@),
    {
        let ghost g0 = self@;
        let with_globals = !self.in_function;
        self.push_bss_section(ast, with_globals);
        self.push_text_section();
        self.current_section = SectionCode::new(String::from_str("f_main:"));
        let ghost g1 = self@;
        if with_globals {
            self.generate_global_inits(ast);
        } else {
            assert(self@ == gen_global_inits(g1, Seq::empty()));
        }
        proof {
            lemma_global_inits_same_frame(g1, if with_globals { global_decls(ast@) } else { Seq::empty() });
        }
        self.generate_top_level(ast);
        self.emit(String::from_str("    mov rax, 60"));
        self.emit(String::from_str("    xor rdi, rdi"));
        self.emit(String::from_str("    syscall"));
        self.push_data_section();
        let mut main_section = SectionCode::new(String::new());
        std::mem::swap(&mut main_section, &mut self.current_section);
        let ghost sections = self.assembly.sections_code@;
        self.assembly.sections_code.push(main_section);
        assert(sections_view(self.assembly.sections_code@) =~= sections_view(sections).push(main_section@));
    }
}

/// Whether `o` holds `n`, or is `None` when `n` is too big for a `u64`.
pub open spec fn holds_size(o: Option<u64>, n: nat) -> bool {
    match o {
        Some(v) => v == n,
        None => n > u64::MAX,
    }
}

/// The sum of two sizes, `None` when it is too big for a `u64`.
fn add_sizes(a: Option<u64>, b: Option<u64>, Ghost(n): Ghost<nat>, Ghost(m): Ghost<nat>) -> (r: Option<u64>)
    requires
        holds_size(a, n),
        holds_size(b, m),
    ensures
        holds_size(r, n + m),
{
    match (a, b) {
        (Some(x), Some(y)) => x.checked_add(y),
        _ => None,
    }
}

/// The size of a statement, as `stmt_size` states.
pub fn statement_size(stmt: &Statement) -> (r: Option<u64>)
    ensures
        holds_size(r, stmt_size(stmt@)),
    decreases stmt,
{
    match stmt {
        Statement::If(i) => {
            let ghost then_size = stmts_size(stmts_view(i.then_branch@));
            let ghost else_size: nat = match &i.else_branch {
                Some(b) => stmts_size(stmts_view(b@)),
                None => 0,
            };
            let else_total = match &i.else_branch {
                Some(b) => block_size(b),
                None => Some(0),
            };
            let head = add_sizes(Some(1), block_size(&i.then_branch), Ghost(1), Ghost(then_size));
            add_sizes(head, else_total, Ghost(1 + then_size), Ghost(else_size))
        },
        Statement::For(f) => {
            let ghost init_size = stmt_size(f.init@);
            let ghost incr_size = stmt_size(f.incr@);
            let a = add_sizes(Some(1), statement_size(&f.init), Ghost(1), Ghost(init_size));
            let b = add_sizes(a, statement_size(&f.incr), Ghost(1 + init_size), Ghost(incr_size));
            add_sizes(b, block_size(&f.body), Ghost(1 + init_size + incr_size), Ghost(stmts_size(stmts_view(f.body@))))
        },
        Statement::While(w) => add_sizes(Some(1), block_size(&w.body), Ghost(1), Ghost(stmts_size(stmts_view(w.body@)))),
        Statement::Switch(sw) => {
            let ghost cases_total = cases_size(cases_view(sw.cases@));
            let ghost default_size: nat = match &sw.default {
                Some(b) => stmts_size(stmts_view(b@)),
                None => 0,
            };
            let default_total = match &sw.default {
                Some(b) => block_size(b),
                None => Some(0),
            };
            let head = add_sizes(Some(1), cases_total_size(&sw.cases), Ghost(1), Ghost(cases_total));
            add_sizes(head, default_total, Ghost(1 + cases_total), Ghost(default_size))
        },
        Statement::FunctionDeclaration(f) => {
            let head = add_sizes(Some(1), Some(f.parameters.len() as u64), Ghost(1), Ghost(f.parameters@.len()));
            add_sizes(head, block_size(&f.body), Ghost(1 + f.parameters@.len()), Ghost(stmts_size(stmts_view(f.body@))))
        },
        _ => Some(1),
    }
}

/// The sum of the sizes of statements, as `stmts_size` states.
pub fn block_size(stmts: &Vec<Statement>) -> (r: Option<u64>)
    ensures
        holds_size(r, stmts_size(stmts_view(stmts@))),
    decreases stmts,
{
    let ghost sv = stmts_view(stmts@);
    proof { lemma_stmts_view(stmts@); }
    let mut total: Option<u64> = Some(0);
    let mut i: usize = 0;
    assert(sv.take(0) =~= Seq::<StmtView>::empty());
    while i < stmts.len()
        invariant
            i <= stmts@.len(),
            sv == stmts_view(stmts@),
            sv.len() == stmts@.len(),
            forall|j: int| 0 <= j < stmts@.len() ==> #[trigger] sv[j] == stmts@[j]@,
            holds_size(total, stmts_size(sv.take(i as int))),
        decreases stmts.len() - i,
    {
        proof {
            assert(decreases_to!(stmts => stmts@[i as int]));
            assert(sv.take(i + 1).drop_last() =~= sv.take(i as int));
        }
        total = add_sizes(total, statement_size(&stmts[i]), Ghost(stmts_size(sv.take(i as int))), Ghost(stmt_size(sv[i as int])));
        i += 1;
    }
    assert(sv.take(sv.len() as int) =~= sv);
    total
}

/// The sizes of the cases of a switch, as `cases_size` states.
fn cases_total_size(cases: &Vec<SwitchCase>) -> (r: Option<u64>)
    ensures
        holds_size(r, cases_size(cases_view(cases@))),
    decreases cases,
{
    let ghost cv = cases_view(cases@);
    proof { lemma_cases_view(cases@); }
    let mut total: Option<u64> = Some(0);
    let mut i: usize = 0;
    assert(cv.take(0) =~= Seq::<(ExprView, Seq<StmtView>)>::empty());
    while i < cases.len()
        invariant
            i <= cases@.len(),
            cv == cases_view(cases@),
            cv.len() == cases@.len(),
            forall|j: int|
                0 <= j < cases@.len() ==> #[trigger] cv[j] == (cases@[j].value@, stmts_view(cases@[j].body@)),
            holds_size(total, cases_size(cv.take(i as int))),
        decreases cases.len() - i,
    {
        proof {
            assert(decreases_to!(cases => cases@[i as int]));
            assert(decreases_to!(cases@[i as int] => cases@[i as int].body));
            assert(cv.take(i + 1).drop_last() =~= cv.take(i as int));
        }
        let ghost before = cases_size(cv.take(i as int));
        let with_case = add_sizes(total, Some(1), Ghost(before), Ghost(1));
        total = add_sizes(with_case, block_size(&cases[i].body), Ghost(before + 1), Ghost(stmts_size(cv[i as int].1)));
        i += 1;
    }
    assert(cv.take(cv.len() as int) =~= cv);
    total
}

impl CodeGenerator {
    /// Whether the counters of this generator have room for `ast`, as
    /// `generate` requires.
    pub fn can_generate(&self, ast: &AST) -> (r: bool)
        ensures
            r == fits(self@, stmts_size(ast@)),
    {
        match block_size(&ast.statements) {
            Some(n) => {
                let n = n as u128;
                4 <= self.local_offset && (self.local_offset as i128) + 8 * (n as i128) + 16 <= i32::MAX as i128
                    && (self.label_counter as u128) + 2 * n <= usize::MAX as u128
                    && (self.nb_for_boucle as u128) + n <= usize::MAX as u128
            },
            None => false,
        }
    }
}

} // verus!
