//! The code generator: statements to assembly text.
//!
//! Every expression leaves its value in `rax`; the right operand of a binary
//! operation is evaluated first and kept on the stack, then popped into `rbx`.
//! Every `let` takes a fresh 8-byte slot below `rbp`; a name refers to the
//! slot of its latest `let`, whatever block that `let` stood in.
use vstd::prelude::*;

use crate::ast::{
    elifs_model, else_model, lemma_elifs_model_index, lemma_stmts_model_index, stmts_model, Expr, ExprModel,
    Op, Stmt, StmtModel,
};
use crate::text::{dec_int, dec_nat, ind, int_text, line, nat_text};
use crate::CompileError;

verus! {

broadcast use vstd::std_specs::vec::group_vec_axioms, vstd::seq::group_seq_axioms;

/// What code generation carries from one statement to the next.
pub struct GenState {
    /// Each bound name with its frame offset, oldest first.
    pub vars: Seq<(Seq<char>, int)>,
    /// The offset of the slot taken last (0 before the first).
    pub offset: int,
    /// The number that the next label gets.
    pub label: int,
}

/// The state before any statement.
pub open spec fn initial_state() -> GenState {
    GenState { vars: seq![], offset: 0, label: 0 }
}

/// The offset of the latest binding of `x`, if any.
pub open spec fn lookup(vars: Seq<(Seq<char>, int)>, x: Seq<char>) -> Option<int>
    decreases vars.len(),
{
    if vars.len() == 0 {
        None
    } else if vars.last().0 == x {
        Some(vars.last().1)
    } else {
        lookup(vars.drop_last(), x)
    }
}

/// The text of label number `k` with the given purpose.
pub open spec fn label(prefix: Seq<char>, k: int) -> Seq<char> {
    "."@ + prefix + "_"@ + dec_nat(k as nat)
}

/// Takes the next label number.
pub open spec fn fresh(st: GenState) -> Result<(GenState, int), CompileError> {
    if st.label < u64::MAX {
        Ok((GenState { label: st.label + 1, ..st }, st.label))
    } else {
        Err(CompileError::Capacity)
    }
}

/// A comparison: compare, set `al` by the condition, widen to `rax`.
pub open spec fn set_code(set: Seq<char>) -> Seq<char> {
    ind("cmp rax, rbx"@) + ind(set) + ind("movzx rax, al"@)
}

/// Combines `rax` (left) and `rbx` (right) into `rax`.
pub open spec fn op_code(op: Op) -> Seq<char> {
    match op {
        Op::Add => ind("add rax, rbx"@),
        Op::Sub => ind("sub rax, rbx"@),
        Op::Mul => ind("imul rax, rbx"@),
        Op::Div => ind("cqo"@) + ind("idiv rbx"@),
        Op::Eq => set_code("sete al"@),
        Op::NotEq => set_code("setne al"@),
        Op::Gt => set_code("setg al"@),
        Op::Gte => set_code("setge al"@),
        Op::Lt => set_code("setl al"@),
        Op::Lte => set_code("setle al"@),
    }
}

/// The code that leaves the value of `e` in `rax`.
pub open spec fn gen_expr(vars: Seq<(Seq<char>, int)>, e: ExprModel) -> Result<Seq<char>, CompileError>
    decreases e,
{
    match e {
        ExprModel::Num(n) => Ok(ind("mov rax, "@ + dec_int(n as int))),
        ExprModel::Ident(x) => match lookup(vars, x) {
            Some(off) => Ok(ind("mov rax, [rbp"@ + dec_int(off) + "]"@)),
            None => Err(CompileError::UnboundVariable),
        },
        ExprModel::BinOp(l, op, r) => match gen_expr(vars, *r) {
            Ok(rc) => match gen_expr(vars, *l) {
                Ok(lc) => Ok(rc + ind("push rax"@) + lc + ind("pop rbx"@) + op_code(op)),
                Err(x) => Err(x),
            },
            Err(x) => Err(x),
        },
        ExprModel::UnaryOp(op, x) => match gen_expr(vars, *x) {
            Ok(c) => if op == Op::Sub {
                Ok(c + ind("neg rax"@))
            } else {
                Err(CompileError::InvalidUnary)
            },
            Err(x) => Err(x),
        },
    }
}

/// The result of generating code for statements: the state after, and the code.
pub type GenResult = Result<(GenState, Seq<char>), CompileError>;

/// Code for a sequence of statements, in order.
pub open spec fn gen_stmts(st: GenState, ss: Seq<StmtModel>) -> GenResult
    decreases ss,
{
    if ss.len() == 0 {
        Ok((st, seq![]))
    } else {
        match gen_stmts(st, ss.drop_last()) {
            Ok((st1, c)) => match gen_stmt(st1, ss.last()) {
                Ok((st2, c2)) => Ok((st2, c + c2)),
                Err(x) => Err(x),
            },
            Err(x) => Err(x),
        }
    }
}

/// Code for one statement.
pub open spec fn gen_stmt(st: GenState, s: StmtModel) -> GenResult
    decreases s,
{
    match s {
        StmtModel::Let(x, e) => match gen_expr(st.vars, e) {
            Ok(c) => if st.offset - 8 >= i64::MIN {
                let off = st.offset - 8;
                Ok(
                    (
                        GenState { vars: st.vars.push((x, off)), offset: off, ..st },
                        ind("; let "@ + x + " = ..."@) + c + ind("mov [rbp"@ + dec_int(off) + "], rax"@)
                            + line(""@),
                    ),
                )
            } else {
                Err(CompileError::Capacity)
            },
            Err(x) => Err(x),
        },
        StmtModel::Exit(e) => match gen_expr(st.vars, e) {
            Ok(c) => Ok(
                (
                    st,
                    ind("; exit"@) + c + ind("mov rdi, rax"@) + ind("mov rax, 60"@) + ind("syscall"@)
                        + line(""@),
                ),
            ),
            Err(x) => Err(x),
        },
        StmtModel::While(c, b) => match fresh(st) {
            Ok((st1, top)) => match fresh(st1) {
                Ok((st2, end)) => match gen_expr(st2.vars, c) {
                    Ok(cc) => match gen_stmts(st2, b) {
                        Ok((st3, bc)) => Ok((st3, while_code(top, end, cc, bc))),
                        Err(x) => Err(x),
                    },
                    Err(x) => Err(x),
                },
                Err(x) => Err(x),
            },
            Err(x) => Err(x),
        },
        StmtModel::If(c, t, es, eb) => match fresh(st) {
            Ok((st1, end)) => match gen_expr(st1.vars, c) {
                Ok(cc) => if es.len() == 0 && eb is None {
                    match gen_stmts(st1, t) {
                        Ok((st2, tc)) => Ok((st2, if_code(end, cc, tc))),
                        Err(x) => Err(x),
                    }
                } else {
                    match fresh(st1) {
                        Ok((st2, first)) => match gen_stmts(st2, t) {
                            Ok((st3, tc)) => match gen_elifs(st3, end, first, es) {
                                Ok((st4, ec, last)) => match gen_else(st4, eb) {
                                    Ok((st5, elc)) => Ok(
                                        (st5, if_chain_code(end, first, last, cc, tc, ec, elc)),
                                    ),
                                    Err(x) => Err(x),
                                },
                                Err(x) => Err(x),
                            },
                            Err(x) => Err(x),
                        },
                        Err(x) => Err(x),
                    }
                },
                Err(x) => Err(x),
            },
            Err(x) => Err(x),
        },
    }
}

/// Code for `elif` branches: each one starts at the label that the branch
/// before it jumps to when its condition is false (`first` for the first),
/// and names the label of the next. Also gives the last such label.
pub open spec fn gen_elifs(
    st: GenState,
    end: int,
    first: int,
    es: Seq<(ExprModel, Seq<StmtModel>)>,
) -> Result<(GenState, Seq<char>, int), CompileError>
    decreases es,
{
    if es.len() == 0 {
        Ok((st, seq![], first))
    } else {
        match gen_elifs(st, end, first, es.drop_last()) {
            Ok((st1, code, prev)) => match fresh(st1) {
                Ok((st2, next)) => match gen_expr(st2.vars, es.last().0) {
                    Ok(cc) => match gen_stmts(st2, es.last().1) {
                        Ok((st3, bc)) => Ok((st3, code + elif_code(end, prev, next, cc, bc), next)),
                        Err(x) => Err(x),
                    },
                    Err(x) => Err(x),
                },
                Err(x) => Err(x),
            },
            Err(x) => Err(x),
        }
    }
}

/// Code for an optional `else` block.
pub open spec fn gen_else(st: GenState, eb: Option<Seq<StmtModel>>) -> GenResult
    decreases eb,
{
    match eb {
        Some(b) => match gen_stmts(st, b) {
            Ok((st1, bc)) => Ok((st1, ind("; else block"@) + bc)),
            Err(x) => Err(x),
        },
        None => Ok((st, seq![])),
    }
}

/// A loop: test at the top, leave when false, jump back after the body.
pub open spec fn while_code(top: int, end: int, cc: Seq<char>, bc: Seq<char>) -> Seq<char> {
    line(label("while"@, top) + ":"@) + ind("; while condition"@) + cc + ind("cmp rax, 0"@) + ind(
        "je "@ + label("while_end"@, end),
    ) + ind("; while body"@) + bc + ind("jmp "@ + label("while"@, top)) + line(
        label("while_end"@, end) + ":"@,
    ) + line(""@)
}

/// An `if` alone: skip the body when the condition is false.
pub open spec fn if_code(end: int, cc: Seq<char>, tc: Seq<char>) -> Seq<char> {
    ind("; if condition"@) + cc + ind("cmp rax, 0"@) + ind("je "@ + label("if_end"@, end)) + ind(
        "; then block"@,
    ) + tc + line(label("if_end"@, end) + ":"@) + line(""@)
}

/// One `elif` branch.
pub open spec fn elif_code(end: int, here: int, next: int, cc: Seq<char>, bc: Seq<char>) -> Seq<
    char,
> {
    line(label("elif"@, here) + ":"@) + ind("; elif condition"@) + cc + ind("cmp rax, 0"@) + ind(
        "je "@ + label("elif"@, next),
    ) + ind("; elif block"@) + bc + ind("jmp "@ + label("if_end"@, end))
}

/// An `if` with `elif` branches or an `else` block.
pub open spec fn if_chain_code(
    end: int,
    first: int,
    last: int,
    cc: Seq<char>,
    tc: Seq<char>,
    ec: Seq<char>,
    elc: Seq<char>,
) -> Seq<char> {
    ind("; if condition"@) + cc + ind("cmp rax, 0"@) + chain_tail(end, first, last, tc, ec, elc)
}

/// An `if` with `elif` branches or an `else` block, after the condition.
pub open spec fn chain_tail(
    end: int,
    first: int,
    last: int,
    tc: Seq<char>,
    ec: Seq<char>,
    elc: Seq<char>,
) -> Seq<char> {
    ind("je "@ + label("elif"@, first)) + ind("; then block"@) + tc + ind(
        "jmp "@ + label("if_end"@, end),
    ) + ec + line(label("elif"@, last) + ":"@) + elc + line(label("if_end"@, end) + ":"@) + line(
        ""@,
    )
}

/// The number of `let` statements at the top level of a program.
pub open spec fn top_lets(ss: Seq<StmtModel>) -> nat
    decreases ss.len(),
{
    if ss.len() == 0 {
        0
    } else {
        top_lets(ss.drop_last()) + if ss.last() is Let {
            1nat
        } else {
            0nat
        }
    }
}

/// The bytes reserved for `k` slots of 8 bytes, rounded up to 16.
pub open spec fn frame_size(k: nat) -> nat {
    ((k * 8 + 15) / 16 * 16) as nat
}

/// The scaffolding before the first statement: the three sections, the
/// entry label, the frame set-up and the reservation of the frame.
pub open spec fn prologue(k: nat) -> Seq<char> {
    line("section .data"@) + line(""@) + line("section .bss"@) + line(""@) + line("section .text"@)
        + line("global _start"@) + line(""@) + line("_start:"@) + ind("push rbp"@) + ind(
        "mov rbp, rsp"@,
    ) + (if k > 0 {
        ind("sub rsp, "@ + dec_nat(frame_size(k)))
    } else {
        seq![]
    }) + line(""@)
}

/// The exit with status 0 after the last statement.
pub open spec fn epilogue() -> Seq<char> {
    line(""@) + ind("; default exit"@) + ind("mov rax, 60"@) + ind("xor rdi, rdi"@) + ind(
        "syscall"@,
    )
}

/// The whole output for a program, from state `st`.
///
/// The frame reserves one slot for each `let` at the top level; a `let`
/// inside a block still takes a slot of its own below those.
pub open spec fn gen_program(st: GenState, ss: Seq<StmtModel>) -> Result<Seq<char>, CompileError> {
    match gen_stmts(st, ss) {
        Ok((_, body)) => Ok(prologue(top_lets(ss)) + body + epilogue()),
        Err(x) => Err(x),
    }
}

/// An error in a prefix of the statements is the error of them all.
pub proof fn lemma_gen_stmts_prefix_err(st: GenState, ss: Seq<StmtModel>, k: int)
    requires
        0 <= k <= ss.len(),
        gen_stmts(st, ss.take(k)) is Err,
    ensures
        gen_stmts(st, ss) == gen_stmts(st, ss.take(k)),
    decreases ss.len() - k,
{
    if k < ss.len() {
        assert(ss.take(k + 1).drop_last() =~= ss.take(k));
        lemma_gen_stmts_prefix_err(st, ss, k + 1);
    } else {
        assert(ss.take(k) =~= ss);
    }
}

/// An error in a prefix of the branches is the error of them all.
pub proof fn lemma_gen_elifs_prefix_err(
    st: GenState,
    end: int,
    first: int,
    es: Seq<(ExprModel, Seq<StmtModel>)>,
    k: int,
)
    requires
        0 <= k <= es.len(),
        gen_elifs(st, end, first, es.take(k)) is Err,
    ensures
        gen_elifs(st, end, first, es) == gen_elifs(st, end, first, es.take(k)),
    decreases es.len() - k,
{
    if k < es.len() {
        assert(es.take(k + 1).drop_last() =~= es.take(k));
        lemma_gen_elifs_prefix_err(st, end, first, es, k + 1);
    } else {
        assert(es.take(k) =~= es);
    }
}

/// The text of label number `k` with the given purpose.
fn label_text(prefix: &str, k: u64) -> (r: String)
    ensures
        r@ == label(prefix@, k as int),
{
    let num = nat_text(k as u128);
    ".".to_owned().concat(prefix).concat("_").concat(num.as_str())
}

/// A generator's result agrees with the model's.
pub open spec fn gen_agrees(r: Result<CodeGen, CompileError>, before: CodeGen, g: GenResult) -> bool {
    match g {
        Ok((st, c)) => r is Ok && r->Ok_0.state() == st && r->Ok_0.text() == before.text() + c,
        Err(x) => r == Err::<CodeGen, CompileError>(x),
    }
}

/// The state of a code generator and the text it has written.
pub struct CodeGen {
    output: String,
    vars: Vec<(String, i64)>,
    stack_offset: i64,
    label_counter: u64,
}

impl Default for CodeGen {
    /// The same as [`CodeGen::new`].
    fn default() -> (r: CodeGen)
        ensures
            r.state() == initial_state(),
            r.text() == Seq::<char>::empty(),
    {
        CodeGen::new()
    }
}

impl CodeGen {
    /// The model of the generator's state.
    pub closed spec fn state(&self) -> GenState {
        GenState {
            vars: self.vars@.map_values(|p: (String, i64)| (p.0@, p.1 as int)),
            offset: self.stack_offset as int,
            label: self.label_counter as int,
        }
    }

    /// The text written so far.
    pub closed spec fn text(&self) -> Seq<char> {
        self.output@
    }

    /// A generator that has written nothing and bound nothing.
    pub fn new() -> (r: CodeGen)
        ensures
            r.state() == initial_state(),
            r.text() == Seq::<char>::empty(),
    {
        let r = CodeGen { output: String::new(), vars: Vec::new(), stack_offset: 0, label_counter: 0 };
        assert(r.state().vars =~= seq![]);
        r
    }

    /// Takes the next label number.
    fn new_label(&mut self) -> (r: Result<u64, CompileError>)
        ensures
            final(self).text() == old(self).text(),
            match fresh(old(self).state()) {
                Ok((st, k)) => r == Ok::<u64, CompileError>(k as u64) && k == r->Ok_0 as int
                    && final(self).state() == st,
                Err(x) => r == Err::<u64, CompileError>(x),
            },
    {
        if self.label_counter == u64::MAX {
            return Err(CompileError::Capacity);
        }
        let k = self.label_counter;
        self.label_counter = self.label_counter + 1;
        Ok(k)
    }

    /// Writes a structural line.
    fn emit(&mut self, text: &str)
        ensures
            final(self).text() == old(self).text() + line(text@),
            final(self).state() == old(self).state(),
    {
        self.output.append(text);
        self.output.append("\n");
        assert(self.output@ =~= old(self).output@ + line(text@));
    }

    /// Writes an instruction line.
    fn emit_indent(&mut self, text: &str)
        ensures
            final(self).text() == old(self).text() + ind(text@),
            final(self).state() == old(self).state(),
    {
        self.output.append("    ");
        self.output.append(text);
        self.output.append("\n");
        assert(self.output@ =~= old(self).output@ + ind(text@));
    }

    /// The offset of the latest binding of `name`.
    fn find(&self, name: &String) -> (r: Option<i64>)
        ensures
            match lookup(self.state().vars, name@) {
                Some(off) => r == Some(off as i64) && off == r->Some_0 as int,
                None => r is None,
            },
    {
        let ghost vars = self.state().vars;
        let mut i = self.vars.len();
        assert(vars.take(i as int) =~= vars);
        while i > 0
            invariant
                i <= self.vars@.len(),
                vars == self.state().vars,
                lookup(vars, name@) == lookup(vars.take(i as int), name@),
            decreases i,
        {
            assert(vars.take(i as int).drop_last() =~= vars.take(i - 1));
            if self.vars[i - 1].0 == *name {
                return Some(self.vars[i - 1].1);
            }
            i = i - 1;
        }
        None
    }

    /// Writes the code that leaves the value of `e` in `rax`.
    fn gen_expr(&mut self, e: &Expr) -> (r: Result<(), CompileError>)
        ensures
            final(self).state() == old(self).state(),
            match gen_expr(old(self).state().vars, e@) {
                Ok(c) => r is Ok && final(self).text() == old(self).text() + c,
                Err(x) => r == Err::<(), CompileError>(x),
            },
        decreases e,
    {
        match e {
            Expr::Num(n) => {
                let t = "mov rax, ".to_owned().concat(int_text(*n as i64).as_str());
                self.emit_indent(t.as_str());
                Ok(())
            },
            Expr::Ident(name) => match self.find(name) {
                Some(off) => {
                    let t = "mov rax, [rbp".to_owned().concat(int_text(off).as_str()).concat("]");
                    self.emit_indent(t.as_str());
                    Ok(())
                },
                None => Err(CompileError::UnboundVariable),
            },
            Expr::BinOp(l, op, r) => {
                match self.gen_expr(r) {
                    Ok(()) => {},
                    Err(x) => {
                        return Err(x);
                    },
                }
                self.emit_indent("push rax");
                match self.gen_expr(l) {
                    Ok(()) => {},
                    Err(x) => {
                        return Err(x);
                    },
                }
                self.emit_indent("pop rbx");
                self.gen_op(*op);
                proof {
                    assert(self.output@ =~= old(self).output@ + gen_expr(old(self).state().vars, e@)->Ok_0);
                }
                Ok(())
            },
            Expr::UnaryOp(op, x) => {
                match self.gen_expr(x) {
                    Ok(()) => {},
                    Err(x) => {
                        return Err(x);
                    },
                }
                match op {
                    Op::Sub => {
                        self.emit_indent("neg rax");
                        proof {
                            assert(self.output@ =~= old(self).output@ + gen_expr(old(self).state().vars, e@)->Ok_0);
                        }
                        Ok(())
                    },
                    _ => Err(CompileError::InvalidUnary),
                }
            },
        }
    }

    /// Writes a line that holds a label and a colon.
    fn emit_label(&mut self, prefix: &str, k: u64)
        ensures
            final(self).text() == old(self).text() + line(label(prefix@, k as int) + ":"@),
            final(self).state() == old(self).state(),
    {
        let t = label_text(prefix, k).concat(":");
        self.emit(t.as_str());
    }

    /// Writes a jump instruction to a label.
    fn emit_jump(&mut self, jump: &str, prefix: &str, k: u64)
        ensures
            final(self).text() == old(self).text() + ind(jump@ + label(prefix@, k as int)),
            final(self).state() == old(self).state(),
    {
        let t = jump.to_owned().concat(label_text(prefix, k).as_str());
        self.emit_indent(t.as_str());
    }

    fn gen_let(self, name: &String, e: &Expr) -> (r: Result<CodeGen, CompileError>)
        ensures
            gen_agrees(r, self, gen_stmt(self.state(), StmtModel::Let(name@, e@))),
    {
        let mut cg = self;
        let t = "; let ".to_owned().concat(name.as_str()).concat(" = ...");
        cg.emit_indent(t.as_str());
        match cg.gen_expr(e) {
            Ok(()) => {},
            Err(x) => {
                return Err(x);
            },
        }
        if cg.stack_offset < i64::MIN + 8 {
            return Err(CompileError::Capacity);
        }
        cg.stack_offset = cg.stack_offset - 8;
        cg.vars.push((name.clone(), cg.stack_offset));
        let t2 = "mov [rbp".to_owned().concat(int_text(cg.stack_offset).as_str()).concat("], rax");
        cg.emit_indent(t2.as_str());
        cg.emit("");
        proof {
            let g = gen_stmt(self.state(), StmtModel::Let(name@, e@))->Ok_0;
            assert(cg.output@ =~= self.output@ + g.1);
            assert(cg.state().vars =~= g.0.vars);
        }
        Ok(cg)
    }

    fn gen_exit(self, e: &Expr) -> (r: Result<CodeGen, CompileError>)
        ensures
            gen_agrees(r, self, gen_stmt(self.state(), StmtModel::Exit(e@))),
    {
        let mut cg = self;
        cg.emit_indent("; exit");
        match cg.gen_expr(e) {
            Ok(()) => {},
            Err(x) => {
                return Err(x);
            },
        }
        cg.emit_indent("mov rdi, rax");
        cg.emit_indent("mov rax, 60");
        cg.emit_indent("syscall");
        cg.emit("");
        proof {
            let g = gen_stmt(self.state(), StmtModel::Exit(e@))->Ok_0;
            assert(cg.output@ =~= self.output@ + g.1);
        }
        Ok(cg)
    }

    fn gen_while(self, c: &Expr, b: &Vec<Stmt>) -> (r: Result<CodeGen, CompileError>)
        ensures
            gen_agrees(r, self, gen_stmt(self.state(), StmtModel::While(c@, stmts_model(b@)))),
        decreases b, 3int,
    {
        let mut cg = self;
        let top = match cg.new_label() {
            Ok(k) => k,
            Err(x) => {
                return Err(x);
            },
        };
        let end = match cg.new_label() {
            Ok(k) => k,
            Err(x) => {
                return Err(x);
            },
        };
        let ghost st2 = cg.state();
        let ghost t0 = cg.output@;
        cg.emit_label("while", top);
        cg.emit_indent("; while condition");
        match cg.gen_expr(c) {
            Ok(()) => {},
            Err(x) => {
                return Err(x);
            },
        }
        cg.emit_indent("cmp rax, 0");
        cg.emit_jump("je ", "while_end", end);
        cg.emit_indent("; while body");
        let ghost t1 = cg.output@;
        let mut cg = match cg.gen_stmts(b) {
            Ok(x) => x,
            Err(x) => {
                return Err(x);
            },
        };
        let ghost t2 = cg.output@;
        cg.emit_jump("jmp ", "while", top);
        cg.emit_label("while_end", end);
        cg.emit("");
        proof {
            let cc = gen_expr(st2.vars, c@)->Ok_0;
            let bc = gen_stmts(st2, stmts_model(b@))->Ok_0.1;
            assert(t2 == t1 + bc);
            assert(cg.output@ =~= t0 + while_code(top as int, end as int, cc, bc));
            assert(cg.output@ =~= self.output@ + while_code(top as int, end as int, cc, bc));
        }
        Ok(cg)
    }

    fn gen_else(self, eb: &Option<Vec<Stmt>>) -> (r: Result<CodeGen, CompileError>)
        ensures
            gen_agrees(r, self, gen_else(self.state(), else_model(*eb))),
        decreases eb, 3int,
    {
        match eb {
            Some(b) => {
                let mut cg = self;
                cg.emit_indent("; else block");
                let ghost t1 = cg.output@;
                let cg = match cg.gen_stmts(b) {
                    Ok(x) => x,
                    Err(x) => {
                        return Err(x);
                    },
                };
                proof {
                    let bc = gen_stmts(self.state(), stmts_model(b@))->Ok_0.1;
                    assert(cg.output@ =~= self.output@ + (ind("; else block"@) + bc));
                }
                Ok(cg)
            },
            None => {
                assert(self.output@ =~= self.output@ + Seq::<char>::empty());
                Ok(self)
            },
        }
    }

    #[verifier::rlimit(30)]
    fn gen_if(self, s: &Stmt) -> (r: Result<CodeGen, CompileError>)
        requires
            s is If,
        ensures
            gen_agrees(r, self, gen_stmt(self.state(), s@)),
        decreases s, 3int,
    {
        let (c, t, es, eb) = match s {
            Stmt::If(c, t, es, eb) => (c, t, es, eb),
            _ => {
                assert(false);
                return Err(CompileError::Syntax);
            },
        };
        proof {
            lemma_elifs_model_index(es@);
        }
        let mut cg = self;
        let end = match cg.new_label() {
            Ok(k) => k,
            Err(x) => {
                return Err(x);
            },
        };
        let ghost st1 = cg.state();
        cg.emit_indent("; if condition");
        match cg.gen_expr(c) {
            Ok(()) => {},
            Err(x) => {
                return Err(x);
            },
        }
        cg.emit_indent("cmp rax, 0");
        let ghost cc = gen_expr(st1.vars, c@)->Ok_0;
        assert(cg.output@ =~= self.output@ + (ind("; if condition"@) + cc + ind("cmp rax, 0"@)));
        if es.len() == 0 && eb.is_none() {
            cg.emit_jump("je ", "if_end", end);
            cg.emit_indent("; then block");
            let ghost t1 = cg.output@;
            let mut cg = match cg.gen_stmts(t) {
                Ok(x) => x,
                Err(x) => {
                    return Err(x);
                },
            };
            cg.emit_label("if_end", end);
            cg.emit("");
            proof {
                let tc = gen_stmts(st1, stmts_model(t@))->Ok_0.1;
                assert(cg.output@ =~= self.output@ + if_code(end as int, cc, tc));
            }
            Ok(cg)
        } else {
            let cg = match cg.gen_chain(s, end) {
                Ok(x) => x,
                Err(x) => {
                    return Err(x);
                },
            };
            proof {
                let (st2, first) = fresh(st1)->Ok_0;
                let (st3, tc) = gen_stmts(st2, stmts_model(t@))->Ok_0;
                let (st4, ec, last) = gen_elifs(st3, end as int, first, elifs_model(es@))->Ok_0;
                let elc = gen_else(st4, else_model(*eb))->Ok_0.1;
                assert(cg.output@ =~= self.output@ + if_chain_code(end as int, first, last, cc, tc, ec, elc));
            }
            Ok(cg)
        }
    }

    /// Writes what follows the condition of an `if` with `elif` branches or
    /// an `else` block.
    #[verifier::rlimit(40)]
    fn gen_chain(self, s: &Stmt, end: u64) -> (r: Result<CodeGen, CompileError>)
        requires
            s is If,
        ensures
            match fresh(self.state()) {
                Ok((st2, first)) => match gen_stmts(st2, stmts_model(s->If_1@)) {
                    Ok((st3, tc)) => match gen_elifs(st3, end as int, first, elifs_model(s->If_2@)) {
                        Ok((st4, ec, last)) => match gen_else(st4, else_model(s->If_3)) {
                            Ok((st5, elc)) => r is Ok && r->Ok_0.state() == st5 && r->Ok_0.text()
                                == self.text() + chain_tail(end as int, first, last, tc, ec, elc),
                            Err(x) => r == Err::<CodeGen, CompileError>(x),
                        },
                        Err(x) => r == Err::<CodeGen, CompileError>(x),
                    },
                    Err(x) => r == Err::<CodeGen, CompileError>(x),
                },
                Err(x) => r == Err::<CodeGen, CompileError>(x),
            },
        decreases s, 2int,
    {
        let (t, es, eb) = match s {
            Stmt::If(_, t, es, eb) => (t, es, eb),
            _ => {
                assert(false);
                return Err(CompileError::Syntax);
            },
        };
        let mut cg = self;
        let first = match cg.new_label() {
            Ok(k) => k,
            Err(x) => {
                return Err(x);
            },
        };
        cg.emit_jump("je ", "elif", first);
        cg.emit_indent("; then block");
        let mut cg = match cg.gen_stmts(t) {
            Ok(x) => x,
            Err(x) => {
                return Err(x);
            },
        };
        cg.emit_jump("jmp ", "if_end", end);
        let ghost t2 = cg.output@;
        let (mut cg, last) = match cg.gen_elifs(es, end, first) {
            Ok(x) => x,
            Err(x) => {
                return Err(x);
            },
        };
        cg.emit_label("elif", last);
        let mut cg = match cg.gen_else(eb) {
            Ok(x) => x,
            Err(x) => {
                return Err(x);
            },
        };
        cg.emit_label("if_end", end);
        cg.emit("");
        proof {
            let (st2, first) = fresh(self.state())->Ok_0;
            let (st3, tc) = gen_stmts(st2, stmts_model(t@))->Ok_0;
            let (st4, ec, last) = gen_elifs(st3, end as int, first, elifs_model(es@))->Ok_0;
            let elc = gen_else(st4, else_model(*eb))->Ok_0.1;
            assert(cg.output@ =~= self.output@ + chain_tail(end as int, first, last, tc, ec, elc));
        }
        Ok(cg)
    }

    /// Writes the code for `elif` branches; the first starts at label
    /// `first`. Gives the label that the last branch jumps to when its
    /// condition is false.
    fn gen_elifs(self, es: &Vec<(Expr, Vec<Stmt>)>, end: u64, first: u64) -> (r: Result<
        (CodeGen, u64),
        CompileError,
    >)
        ensures
            match gen_elifs(self.state(), end as int, first as int, elifs_model(es@)) {
                Ok((st, c, last)) => r is Ok && r->Ok_0.0.state() == st && r->Ok_0.0.text()
                    == self.text() + c && r->Ok_0.1 as int == last,
                Err(x) => r == Err::<(CodeGen, u64), CompileError>(x),
            },
        decreases es, 1int,
    {
        let ghost st0 = self.state();
        let ghost models = elifs_model(es@);
        proof {
            lemma_elifs_model_index(es@);
        }
        let mut cg = self;
        let mut prev = first;
        let mut i: usize = 0;
        assert(models.take(0) =~= seq![]);
        assert(cg.output@ =~= self.output@ + Seq::<char>::empty());
        while i < es.len()
            invariant
                st0 == self.state(),
                i <= es@.len(),
                models == elifs_model(es@),
                models.len() == es@.len(),
                forall|j: int|
                    0 <= j < es@.len() ==> #[trigger] models[j] == (es@[j].0@, stmts_model(
                        es@[j].1@,
                    )),
                match gen_elifs(st0, end as int, first as int, models.take(i as int)) {
                    Ok((st, c, last)) => cg.state() == st && cg.output@ == self.output@ + c && prev
                        as int == last,
                    Err(_) => false,
                },
            decreases es@.len() - i,
        {
            assert(models.take(i + 1).drop_last() =~= models.take(i as int));
            assert(models.take(i + 1).last() == models[i as int]);
            let ghost c0 = cg.output@;
            let next = match cg.new_label() {
                Ok(k) => k,
                Err(x) => {
                    proof {
                        lemma_gen_elifs_prefix_err(st0, end as int, first as int, models, i + 1);
                    }
                    return Err(x);
                },
            };
            let ghost st2 = cg.state();
            cg.emit_label("elif", prev);
            cg.emit_indent("; elif condition");
            match cg.gen_expr(&es[i].0) {
                Ok(()) => {},
                Err(x) => {
                    proof {
                        lemma_gen_elifs_prefix_err(st0, end as int, first as int, models, i + 1);
                    }
                    return Err(x);
                },
            }
            cg.emit_indent("cmp rax, 0");
            cg.emit_jump("je ", "elif", next);
            cg.emit_indent("; elif block");
            let ghost cc = gen_expr(st2.vars, es@[i as int].0@)->Ok_0;
            let ghost t1 = cg.output@;
            let mut next_cg = match cg.gen_stmts(&es[i].1) {
                Ok(x) => x,
                Err(x) => {
                    proof {
                        lemma_gen_elifs_prefix_err(st0, end as int, first as int, models, i + 1);
                    }
                    return Err(x);
                },
            };
            let ghost bc = gen_stmts(st2, stmts_model(es@[i as int].1@))->Ok_0.1;
            next_cg.emit_jump("jmp ", "if_end", end);
            proof {
                assert(next_cg.output@ =~= c0 + elif_code(end as int, prev as int, next as int, cc, bc));
                assert(next_cg.output@ =~= self.output@ + (gen_elifs(st0, end as int, first as int, models.take(i as int))->Ok_0.1 + elif_code(end as int, prev as int, next as int, cc, bc)));
            }
            cg = next_cg;
            prev = next;
            i = i + 1;
        }
        assert(models.take(i as int) =~= models);
        Ok((cg, prev))
    }

    /// Writes the code for a sequence of statements, in order.
    fn gen_stmts(self, ss: &Vec<Stmt>) -> (r: Result<CodeGen, CompileError>)
        ensures
            gen_agrees(r, self, gen_stmts(self.state(), stmts_model(ss@))),
        decreases ss, 1int,
    {
        let ghost st0 = self.state();
        let ghost models = stmts_model(ss@);
        proof {
            lemma_stmts_model_index(ss@);
        }
        let mut cg = self;
        let mut i: usize = 0;
        assert(models.take(0) =~= seq![]);
        assert(cg.output@ =~= self.output@ + Seq::<char>::empty());
        while i < ss.len()
            invariant
                st0 == self.state(),
                i <= ss@.len(),
                models == stmts_model(ss@),
                models.len() == ss@.len(),
                forall|j: int| 0 <= j < ss@.len() ==> #[trigger] models[j] == ss@[j]@,
                match gen_stmts(st0, models.take(i as int)) {
                    Ok((st, c)) => cg.state() == st && cg.output@ == self.output@ + c,
                    Err(_) => false,
                },
            decreases ss@.len() - i,
        {
            assert(models.take(i + 1).drop_last() =~= models.take(i as int));
            assert(models.take(i + 1).last() == ss@[i as int]@);
            let ghost before = cg.output@;
            match cg.gen_stmt(&ss[i]) {
                Ok(next) => {
                    cg = next;
                    proof {
                        let c = gen_stmts(st0, models.take(i as int))->Ok_0.1;
                        let c2 = gen_stmt(gen_stmts(st0, models.take(i as int))->Ok_0.0, ss@[i as int]@)->Ok_0.1;
                        assert(cg.output@ =~= self.output@ + (c + c2));
                    }
                },
                Err(x) => {
                    proof {
                        lemma_gen_stmts_prefix_err(st0, models, i + 1);
                    }
                    return Err(x);
                },
            }
            i = i + 1;
        }
        assert(models.take(i as int) =~= models);
        Ok(cg)
    }

    /// Writes the code for one statement.
    fn gen_stmt(self, s: &Stmt) -> (r: Result<CodeGen, CompileError>)
        ensures
            gen_agrees(r, self, gen_stmt(self.state(), s@)),
        decreases s, 4int,
    {
        match s {
            Stmt::Let(name, e) => self.gen_let(name, e),
            Stmt::Exit(e) => self.gen_exit(e),
            Stmt::While(c, b) => self.gen_while(c, b),
            Stmt::If(..) => self.gen_if(s),
        }
    }

    /// Compiles a program: the scaffolding, the code of each statement in
    /// order, and a final exit with status 0. No text is given back when
    /// any statement fails.
    pub fn generate(self, stmts: &[Stmt]) -> (r: Result<String, CompileError>)
        ensures
            match gen_program(self.state(), stmts_model(stmts@)) {
                Ok(c) => r is Ok && r->Ok_0@ == self.text() + c,
                Err(x) => r == Err::<String, CompileError>(x),
            },
    {
        let ghost st0 = self.state();
        let ghost models = stmts_model(stmts@);
        proof {
            lemma_stmts_model_index(stmts@);
        }
        let mut cg = self;
        cg.emit("section .data");
        cg.emit("");
        cg.emit("section .bss");
        cg.emit("");
        cg.emit("section .text");
        cg.emit("global _start");
        cg.emit("");
        cg.emit("_start:");
        cg.emit_indent("push rbp");
        cg.emit_indent("mov rbp, rsp");
        let mut count: usize = 0;
        let mut i: usize = 0;
        assert(models.take(0) =~= seq![]);
        while i < stmts.len()
            invariant
                st0 == self.state(),
                i <= stmts@.len(),
                count <= i,
                models == stmts_model(stmts@),
                models.len() == stmts@.len(),
                forall|j: int| 0 <= j < stmts@.len() ==> #[trigger] models[j] == stmts@[j]@,
                count == top_lets(models.take(i as int)),
            decreases stmts@.len() - i,
        {
            assert(models.take(i + 1).drop_last() =~= models.take(i as int));
            assert(models[i as int] == stmts@[i as int]@);
            if let Stmt::Let(..) = &stmts[i] {
                count = count + 1;
            }
            i = i + 1;
        }
        assert(models.take(i as int) =~= models);
        if count > 0 {
            let space: u128 = ((count as u128) * 8 + 15) / 16 * 16;
            let t = "sub rsp, ".to_owned().concat(nat_text(space).as_str());
            cg.emit_indent(t.as_str());
        }
        cg.emit("");
        let ghost t0 = cg.output@;
        assert(t0 =~= self.output@ + prologue(top_lets(models)));
        let mut i: usize = 0;
        while i < stmts.len()
            invariant
                st0 == self.state(),
                t0 == self.output@ + prologue(top_lets(models)),
                i <= stmts@.len(),
                models == stmts_model(stmts@),
                models.len() == stmts@.len(),
                forall|j: int| 0 <= j < stmts@.len() ==> #[trigger] models[j] == stmts@[j]@,
                match gen_stmts(st0, models.take(i as int)) {
                    Ok((st, c)) => cg.state() == st && cg.output@ == t0 + c,
                    Err(_) => false,
                },
            decreases stmts@.len() - i,
        {
            assert(models.take(i + 1).drop_last() =~= models.take(i as int));
            assert(models.take(i + 1).last() == stmts@[i as int]@);
            match cg.gen_stmt(&stmts[i]) {
                Ok(next) => {
                    cg = next;
                    proof {
                        let c = gen_stmts(st0, models.take(i as int))->Ok_0.1;
                        let c2 = gen_stmt(gen_stmts(st0, models.take(i as int))->Ok_0.0, stmts@[i as int]@)->Ok_0.1;
                        assert(cg.output@ =~= t0 + (c + c2));
                    }
                },
                Err(x) => {
                    proof {
                        lemma_gen_stmts_prefix_err(st0, models, i + 1);
                    }
                    return Err(x);
                },
            }
            i = i + 1;
        }
        assert(models.take(i as int) =~= models);
        let ghost body = cg.output@;
        cg.emit("");
        cg.emit_indent("; default exit");
        cg.emit_indent("mov rax, 60");
        cg.emit_indent("xor rdi, rdi");
        cg.emit_indent("syscall");
        assert(cg.output@ =~= body + epilogue());
        assert(cg.output@ =~= self.output@ + gen_program(st0, models)->Ok_0);
        Ok(cg.output)
    }

    /// Writes the code that combines `rax` and `rbx` by `op`.
    fn gen_op(&mut self, op: Op)
        ensures
            final(self).text() == old(self).text() + op_code(op),
            final(self).state() == old(self).state(),
    {
        match op {
            Op::Add => self.emit_indent("add rax, rbx"),
            Op::Sub => self.emit_indent("sub rax, rbx"),
            Op::Mul => self.emit_indent("imul rax, rbx"),
            Op::Div => {
                self.emit_indent("cqo");
                self.emit_indent("idiv rbx");
            },
            _ => {
                self.emit_indent("cmp rax, rbx");
                match op {
                    Op::Eq => self.emit_indent("sete al"),
                    Op::NotEq => self.emit_indent("setne al"),
                    Op::Gt => self.emit_indent("setg al"),
                    Op::Gte => self.emit_indent("setge al"),
                    Op::Lt => self.emit_indent("setl al"),
                    _ => self.emit_indent("setle al"),
                }
                self.emit_indent("movzx rax, al");
            },
        }
        assert(self.output@ =~= old(self).output@ + op_code(op));
    }
}

} // verus!
