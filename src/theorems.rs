//! What the compiler guarantees of whole programs.
use vstd::prelude::*;

use crate::ast::{ExprModel, Op, StmtModel};
use crate::codegen::{
    epilogue, fresh, gen_else, gen_elifs, gen_expr, gen_program, gen_stmt, gen_stmts, if_chain_code,
    initial_state, lookup, op_code, prologue, top_lets, GenState,
};
use crate::{compile_spec, compile_tokens};
use crate::lexer::{
    digit_len, digits_value, is_alpha, is_digit, is_word, lex, lex_from, prefixed, single_token,
    word_len, word_token, Tok,
};
use crate::parser::{
    op_at, p_chain, p_expr, p_exit, p_let, p_operand, p_paren, p_primary, p_stmt, p_stmts, p_tier,
    p_unary, parse_program,
};
use vstd::wrapping::i32_specs as w32;

use crate::text::{dec_int, dec_nat, digit_text, ind, line};

verus! {

/// The code of an `exit` whose value `load` puts in `rax`.
pub open spec fn exit_code(load: Seq<char>) -> Seq<char> {
    ind("; exit"@) + load + ind("mov rdi, rax"@) + ind("mov rax, 60"@) + ind("syscall"@) + line(""@)
}

/// The code that loads a literal into `rax`.
pub open spec fn load_literal(n: int) -> Seq<char> {
    ind("mov rax, "@ + dec_int(n))
}

/// The code that loads the slot at `off` into `rax`.
pub open spec fn load_slot(off: int) -> Seq<char> {
    ind("mov rax, [rbp"@ + dec_int(off) + "]"@)
}

/// The code that stores `rax` into the slot at `off`.
pub open spec fn store_slot(off: int) -> Seq<char> {
    ind("mov [rbp"@ + dec_int(off) + "], rax"@)
}

/// A primary that is one number or one name, followed by a token that
/// continues no expression, is an expression by itself.
proof fn lemma_single_operand(ts: Seq<Tok>, pos: int, e: ExprModel)
    requires
        0 <= pos,
        pos + 1 < ts.len(),
        p_primary(ts, pos) == Ok::<(ExprModel, nat), crate::CompileError>((e, 1nat)),
        !(ts[pos] is Plus) && !(ts[pos] is Minus),
        op_at(ts, pos + 1, 0) is None,
        op_at(ts, pos + 1, 1) is None,
        op_at(ts, pos + 1, 2) is None,
    ensures
        p_expr(ts, pos) == Ok::<(ExprModel, nat), crate::CompileError>((e, 1nat)),
{
    assert(p_unary(ts, pos) == p_primary(ts, pos));
    assert(p_operand(ts, pos, 2) == p_unary(ts, pos));
    assert(p_chain(ts, pos + 1, 2, e) == Ok::<(ExprModel, nat), crate::CompileError>((e, 0nat)));
    assert(p_tier(ts, pos, 2) == Ok::<(ExprModel, nat), crate::CompileError>((e, 1nat)));
    assert(p_operand(ts, pos, 1) == p_tier(ts, pos, 2));
    assert(p_chain(ts, pos + 1, 1, e) == Ok::<(ExprModel, nat), crate::CompileError>((e, 0nat)));
    assert(p_tier(ts, pos, 1) == Ok::<(ExprModel, nat), crate::CompileError>((e, 1nat)));
    assert(p_operand(ts, pos, 0) == p_tier(ts, pos, 1));
    assert(p_chain(ts, pos + 1, 0, e) == Ok::<(ExprModel, nat), crate::CompileError>((e, 0nat)));
    assert(p_tier(ts, pos, 0) == Ok::<(ExprModel, nat), crate::CompileError>((e, 1nat)));
}

/// Compiling `exit(n);` loads `n` into `rax` and exits with it: the output
/// is the scaffolding with no frame, the load of `n`, the exit system call
/// with that value, and the closing default exit.
pub proof fn lemma_exit_literal(n: i32)
    ensures
        compile_tokens(seq![Tok::Exit, Tok::LParen, Tok::Number(n), Tok::RParen, Tok::Semicolon])
            == Ok::<Seq<char>, crate::CompileError>(
            prologue(0) + exit_code(load_literal(n as int)) + epilogue(),
        ),
{
    let ts = seq![Tok::Exit, Tok::LParen, Tok::Number(n), Tok::RParen, Tok::Semicolon];
    let e = ExprModel::Num(n);
    assert(p_primary(ts, 2) == Ok::<(ExprModel, nat), crate::CompileError>((e, 1nat)));
    lemma_single_operand(ts, 2, e);
    assert(p_paren(ts, 1) == Ok::<(ExprModel, nat), crate::CompileError>((e, 3nat)));
    let s = StmtModel::Exit(e);
    assert(p_exit(ts, 1) == Ok::<(StmtModel, nat), crate::CompileError>((s, 4nat)));
    assert(p_stmt(ts, 1, Tok::Exit) == p_exit(ts, 1));
    assert(p_stmts(ts, 5, seq![s]) == Ok::<(Seq<StmtModel>, nat), crate::CompileError>((seq![s], 0nat)));
    assert(seq![].push(s) =~= seq![s]);
    assert(p_stmts(ts, 0, seq![]) == Ok::<(Seq<StmtModel>, nat), crate::CompileError>((seq![s], 5nat)));
    assert(parse_program(ts) == Ok::<Seq<StmtModel>, crate::CompileError>(seq![s]));
    let st = initial_state();
    assert(seq![s].drop_last() =~= seq![]);
    assert(gen_stmts(st, seq![]) == Ok::<(GenState, Seq<char>), crate::CompileError>((st, seq![])));
    let code = exit_code(load_literal(n as int));
    assert(gen_stmt(st, s) == Ok::<(GenState, Seq<char>), crate::CompileError>((st, code)));
    assert(seq![] + code =~= code);
    assert(top_lets(seq![s]) == 0) by {
        assert(top_lets(seq![]) == 0);
    }
}

/// The code of `let x = ...` whose value `load` puts in `rax`, stored at `off`.
pub open spec fn let_code(x: Seq<char>, load: Seq<char>, off: int) -> Seq<char> {
    ind("; let "@ + x + " = ..."@) + load + store_slot(off) + line(""@)
}

/// The tokens of `let x = n; exit(x);`.
pub open spec fn bind_then_use_tokens(x: Seq<char>, n: i32) -> Seq<Tok> {
    seq![
        Tok::Let,
        Tok::Ident(x),
        Tok::Equal,
        Tok::Number(n),
        Tok::Semicolon,
        Tok::Exit,
        Tok::LParen,
        Tok::Ident(x),
        Tok::RParen,
        Tok::Semicolon,
    ]
}

#[verifier::rlimit(60)]
proof fn lemma_parse_bind_then_use(x: Seq<char>, n: i32)
    ensures
        parse_program(bind_then_use_tokens(x, n)) == Ok::<Seq<StmtModel>, crate::CompileError>(
            seq![StmtModel::Let(x, ExprModel::Num(n)), StmtModel::Exit(ExprModel::Ident(x))],
        ),
{
    let ts = bind_then_use_tokens(x, n);
    let e1 = ExprModel::Num(n);
    assert(p_primary(ts, 3) == Ok::<(ExprModel, nat), crate::CompileError>((e1, 1nat)));
    lemma_single_operand(ts, 3, e1);
    let s1 = StmtModel::Let(x, e1);
    assert(p_let(ts, 1) == Ok::<(StmtModel, nat), crate::CompileError>((s1, 4nat)));
    assert(p_stmt(ts, 1, Tok::Let) == p_let(ts, 1));
    let e2 = ExprModel::Ident(x);
    assert(p_primary(ts, 7) == Ok::<(ExprModel, nat), crate::CompileError>((e2, 1nat)));
    lemma_single_operand(ts, 7, e2);
    assert(p_paren(ts, 6) == Ok::<(ExprModel, nat), crate::CompileError>((e2, 3nat)));
    let s2 = StmtModel::Exit(e2);
    assert(p_exit(ts, 6) == Ok::<(StmtModel, nat), crate::CompileError>((s2, 4nat)));
    assert(p_stmt(ts, 6, Tok::Exit) == p_exit(ts, 6));
    let ss = seq![s1, s2];
    assert(seq![s1].push(s2) =~= ss);
    assert(seq![].push(s1) =~= seq![s1]);
    assert(p_stmts(ts, 10, ss) == Ok::<(Seq<StmtModel>, nat), crate::CompileError>((ss, 0nat)));
    assert(p_stmts(ts, 5, seq![s1]) == Ok::<(Seq<StmtModel>, nat), crate::CompileError>((ss, 5nat)));
    assert(p_stmts(ts, 0, seq![]) == Ok::<(Seq<StmtModel>, nat), crate::CompileError>((ss, 10nat)));
}

proof fn lemma_gen_bind_then_use(x: Seq<char>, n: i32)
    ensures
        gen_program(
            initial_state(),
            seq![StmtModel::Let(x, ExprModel::Num(n)), StmtModel::Exit(ExprModel::Ident(x))],
        ) == Ok::<Seq<char>, crate::CompileError>(
            prologue(1) + let_code(x, load_literal(n as int), -8) + exit_code(load_slot(-8))
                + epilogue(),
        ),
{
    let s1 = StmtModel::Let(x, ExprModel::Num(n));
    let s2 = StmtModel::Exit(ExprModel::Ident(x));
    let ss = seq![s1, s2];
    let st = initial_state();
    assert(ss.drop_last() =~= seq![s1]);
    assert(seq![s1].drop_last() =~= seq![]);
    let st1 = GenState { vars: seq![(x, -8int)], offset: -8, label: 0 };
    assert(st.vars.push((x, -8int)) =~= st1.vars);
    let c1 = let_code(x, load_literal(n as int), -8);
    assert(gen_stmt(st, s1) == Ok::<(GenState, Seq<char>), crate::CompileError>((st1, c1)));
    assert(gen_stmts(st, seq![]) == Ok::<(GenState, Seq<char>), crate::CompileError>((st, seq![])));
    assert(seq![s1].last() == s1);
    assert(seq![] + c1 =~= c1);
    assert(gen_stmts(st, seq![s1]) == Ok::<(GenState, Seq<char>), crate::CompileError>((st1, c1)));
    assert(lookup(st1.vars, x) == Some(-8int));
    let c2 = exit_code(load_slot(-8));
    assert(gen_stmt(st1, s2) == Ok::<(GenState, Seq<char>), crate::CompileError>((st1, c2)));
    assert(top_lets(seq![]) == 0);
    assert(top_lets(seq![s1]) == 1);
    assert(top_lets(ss) == 1);
    assert(prologue(1) + (c1 + c2) + epilogue() =~= prologue(1) + c1 + c2 + epilogue());
}

/// Compiling `let x = n; exit(x);` writes `n` to the first slot of the
/// frame, at `rbp - 8`, and reads that slot back into `rax` before the exit
/// system call.
pub proof fn lemma_bind_then_use(x: Seq<char>, n: i32)
    ensures
        compile_tokens(bind_then_use_tokens(x, n)) == Ok::<Seq<char>, crate::CompileError>(
            prologue(1) + let_code(x, load_literal(n as int), -8) + exit_code(load_slot(-8))
                + epilogue(),
        ),
{
    lemma_parse_bind_then_use(x, n);
    lemma_gen_bind_then_use(x, n);
}

/// A body that holds no loop and no `if`.
pub open spec fn flat(ss: Seq<StmtModel>) -> bool {
    forall|i: int| 0 <= i < ss.len() ==> (#[trigger] ss[i] is Let || ss[i] is Exit)
}

/// A body with no loop and no `if` takes no label.
pub proof fn lemma_flat_keeps_labels(st: GenState, ss: Seq<StmtModel>)
    requires
        flat(ss),
        gen_stmts(st, ss) is Ok,
    ensures
        gen_stmts(st, ss)->Ok_0.0.label == st.label,
    decreases ss.len(),
{
    if ss.len() > 0 {
        let pre = ss.drop_last();
        assert(flat(pre)) by {
            assert forall|i: int| 0 <= i < pre.len() implies (#[trigger] pre[i] is Let || pre[i] is Exit) by {
                assert(pre[i] == ss[i]);
            }
        }
        lemma_flat_keeps_labels(st, pre);
        let l = ss[ss.len() - 1];
        assert(l is Let || l is Exit);
        assert(ss.last() == l);
        let st1 = gen_stmts(st, pre)->Ok_0.0;
        assert(gen_stmt(st1, l) is Ok);
        assert(gen_stmt(st1, l)->Ok_0.0.label == st1.label);
    }
}

/// `elif` branches whose bodies hold no loop and no `if`, started right
/// after label `first` was taken: branch `i` starts at label `first + i`
/// and goes on to `first + i + 1` when its condition is false, so the last
/// such label is `first + N` for N branches, and N labels were taken.
pub proof fn lemma_elif_labels(st: GenState, end: int, first: int, es: Seq<(ExprModel, Seq<StmtModel>)>)
    requires
        forall|k: int| 0 <= k < es.len() ==> flat(#[trigger] es[k].1),
        first + 1 == st.label,
        gen_elifs(st, end, first, es) is Ok,
    ensures
        gen_elifs(st, end, first, es)->Ok_0.2 == first + es.len(),
        gen_elifs(st, end, first, es)->Ok_0.0.label == st.label + es.len(),
    decreases es.len(),
{
    if es.len() > 0 {
        let pre = es.drop_last();
        assert forall|k: int| 0 <= k < pre.len() implies flat(#[trigger] pre[k].1) by {
            assert(pre[k] == es[k]);
        }
        lemma_elif_labels(st, end, first, pre);
        let (st1, code, prev) = gen_elifs(st, end, first, pre)->Ok_0;
        let (st2, next) = fresh(st1)->Ok_0;
        assert(es.last() == es[es.len() - 1]);
        lemma_flat_keeps_labels(st2, es.last().1);
    }
}

/// In an `if` with N `elif` branches and an `else` block, none of whose
/// bodies holds a loop or an `if`, generated from a state whose next label
/// is L: the end label is `.if_end_L`; the conditions branch on false to the
/// N+1 labels `.elif_(L+1)` to `.elif_(L+N+1)`, one after another, the last
/// of which starts the `else` block; the `then` block and each `elif` block
/// jump to `.if_end_L`; N+2 labels are taken in all.
pub proof fn lemma_if_chain_targets(
    st: GenState,
    c: ExprModel,
    t: Seq<StmtModel>,
    es: Seq<(ExprModel, Seq<StmtModel>)>,
    e: Seq<StmtModel>,
)
    requires
        flat(t),
        forall|k: int| 0 <= k < es.len() ==> flat(#[trigger] es[k].1),
        flat(e),
        gen_stmt(st, StmtModel::If(c, t, es, Some(e))) is Ok,
    ensures
        gen_stmt(st, StmtModel::If(c, t, es, Some(e)))->Ok_0.0.label == st.label + es.len() + 2,
        exists|cc: Seq<char>, tc: Seq<char>, st3: GenState, elc: Seq<char>|
            {
                &&& gen_elifs(st3, st.label, st.label + 1, es) is Ok
                &&& gen_elifs(st3, st.label, st.label + 1, es)->Ok_0.2 == st.label + 1 + es.len()
                &&& gen_stmt(st, StmtModel::If(c, t, es, Some(e)))->Ok_0.1 == #[trigger] if_chain_code(
                    st.label,
                    st.label + 1,
                    st.label + 1 + es.len(),
                    cc,
                    tc,
                    gen_elifs(st3, st.label, st.label + 1, es)->Ok_0.1,
                    elc,
                )
            },
{
    let (st1, end) = fresh(st)->Ok_0;
    let cc = gen_expr(st1.vars, c)->Ok_0;
    let (st2, first) = fresh(st1)->Ok_0;
    let (st3, tc) = gen_stmts(st2, t)->Ok_0;
    lemma_flat_keeps_labels(st2, t);
    lemma_elif_labels(st3, end, first, es);
    let (st4, ec, last) = gen_elifs(st3, end, first, es)->Ok_0;
    let (st5, elc) = gen_else(st4, Some(e))->Ok_0;
    lemma_flat_keeps_labels(st4, e);
    let elc_body = gen_stmts(st4, e)->Ok_0.1;
    assert(gen_stmt(st, StmtModel::If(c, t, es, Some(e)))->Ok_0.1 == if_chain_code(
        end,
        first,
        last,
        cc,
        tc,
        ec,
        elc,
    ));
}

proof fn lemma_digit_text(d: nat)
    requires
        d < 10,
    ensures
        digit_text(d).len() == 1,
        is_digit(digit_text(d)[0]),
        digit_text(d)[0] as int - '0' as int == d,
{
    reveal_strlit("0");
    reveal_strlit("1");
    reveal_strlit("2");
    reveal_strlit("3");
    reveal_strlit("4");
    reveal_strlit("5");
    reveal_strlit("6");
    reveal_strlit("7");
    reveal_strlit("8");
    reveal_strlit("9");
}

/// The decimal text of a number is a non-empty run of digits whose value
/// is the number.
proof fn lemma_dec_nat_digits(n: nat)
    requires
        n <= i32::MAX,
    ensures
        dec_nat(n).len() >= 1,
        forall|i: int| 0 <= i < dec_nat(n).len() ==> is_digit(#[trigger] dec_nat(n)[i]),
        digits_value(dec_nat(n)) == n as i32,
    decreases n,
{
    let d = dec_nat(n);
    if n < 10 {
        lemma_digit_text(n);
        assert(d.drop_last() =~= seq![]);
        assert(digits_value(d.drop_last()) == 0);
        assert(w32::wrapping_mul(0, 10) == 0);
        assert((d.last() as int - '0' as int) == n);
        assert(w32::wrapping_add(0, n as i32) == n as i32);
    } else {
        lemma_digit_text(n % 10);
        lemma_dec_nat_digits(n / 10);
        let h = dec_nat(n / 10);
        assert(d.drop_last() =~= h);
        assert(d.last() == digit_text(n % 10)[0]);
        assert forall|i: int| 0 <= i < d.len() implies is_digit(#[trigger] d[i]) by {
            if i < h.len() {
                assert(d[i] == h[i]);
            }
        }
        let q = n / 10;
        let r = n % 10;
        assert(q * 10 + r == n);
        assert(0 <= q * 10 <= n);
        assert(w32::wrapping_mul(q as i32, 10) == (q * 10) as i32);
        assert((d.last() as int - '0' as int) == r);
        assert(w32::wrapping_add((q * 10) as i32, r as i32) == n as i32);
    }
}

/// A run of digits from `i` up to a non-digit at `k`.
proof fn lemma_digit_run(cs: Seq<char>, i: int, k: int)
    requires
        0 <= i <= k <= cs.len(),
        forall|j: int| i <= j < k ==> is_digit(#[trigger] cs[j]),
        k < cs.len() ==> !is_digit(cs[k]),
    ensures
        digit_len(cs, i) == k - i,
    decreases k - i,
{
    if i < k {
        lemma_digit_run(cs, i + 1, k);
    }
}

/// Compiling the source text `exit(n);`, for a literal `n`, loads `n` into
/// `rax` and exits with it.
pub proof fn lemma_exit_literal_source(n: nat)
    requires
        n <= i32::MAX,
    ensures
        compile_spec("exit("@ + dec_nat(n) + ");"@) == Ok::<Seq<char>, crate::CompileError>(
            prologue(0) + exit_code(load_literal(n as int)) + epilogue(),
        ),
{
    lemma_lex_exit_literal(n);
    lemma_exit_literal(n as i32);
}

/// The source text `exit(n);`, for a literal `n`, is read as the tokens
/// `exit`, `(`, the number `n` itself, `)` and `;`.
pub proof fn lemma_lex_exit_literal(n: nat)
    requires
        n <= i32::MAX,
    ensures
        lex("exit("@ + dec_nat(n) + ");"@) == Ok::<Seq<Tok>, crate::CompileError>(
            seq![Tok::Exit, Tok::LParen, Tok::Number(n as i32), Tok::RParen, Tok::Semicolon],
        ),
{
    reveal_strlit("exit(");
    reveal_strlit(");");
    reveal_strlit("exit");
    reveal_strlit("let");
    reveal(lex_from);
    let d = dec_nat(n);
    lemma_dec_nat_digits(n);
    let cs = "exit("@ + d + ");"@;
    let k: int = 5 + d.len() as int;
    assert(cs.len() == k + 2);
    assert(cs[k] == ')');
    assert(cs[k + 1] == ';');
    assert forall|j: int| 5 <= j < k implies is_digit(#[trigger] cs[j]) by {
        assert(cs[j] == d[j - 5]);
    }
    lemma_digit_run(cs, 6, k);
    assert(cs.subrange(5, k) =~= d);
    let tail: Seq<Tok> = seq![];
    assert(lex_from(cs, k + 2) == Ok::<Seq<Tok>, crate::CompileError>(tail));
    assert(lex_from(cs, k + 1) == Ok::<Seq<Tok>, crate::CompileError>(seq![Tok::Semicolon])) by {
        assert(seq![Tok::Semicolon] + tail =~= seq![Tok::Semicolon]);
    }
    assert(lex_from(cs, k) == Ok::<Seq<Tok>, crate::CompileError>(seq![Tok::RParen, Tok::Semicolon])) by {
        assert(seq![Tok::RParen] + seq![Tok::Semicolon] =~= seq![Tok::RParen, Tok::Semicolon]);
    }
    assert(digit_len(cs, 6) == k - 6);
    assert(lex_from(cs, 5) == Ok::<Seq<Tok>, crate::CompileError>(
        seq![Tok::Number(n as i32), Tok::RParen, Tok::Semicolon],
    )) by {
        assert(seq![Tok::Number(n as i32)] + seq![Tok::RParen, Tok::Semicolon] =~= seq![
            Tok::Number(n as i32),
            Tok::RParen,
            Tok::Semicolon,
        ]);
    }
    assert(lex_from(cs, 4) == Ok::<Seq<Tok>, crate::CompileError>(
        seq![Tok::LParen, Tok::Number(n as i32), Tok::RParen, Tok::Semicolon],
    )) by {
        assert(seq![Tok::LParen] + seq![Tok::Number(n as i32), Tok::RParen, Tok::Semicolon] =~= seq![
            Tok::LParen,
            Tok::Number(n as i32),
            Tok::RParen,
            Tok::Semicolon,
        ]);
    }
    assert(cs[1] == 'x' && cs[2] == 'i' && cs[3] == 't' && cs[4] == '(');
    assert(word_len(cs, 4) == 0);
    assert(word_len(cs, 3) == 1);
    assert(word_len(cs, 2) == 2);
    assert(word_len(cs, 1) == 3);
    assert(cs.subrange(0, 4) =~= "exit"@);
    assert(word_token(cs.subrange(0, 4)) == Tok::Exit);
    let ts = seq![Tok::Exit, Tok::LParen, Tok::Number(n as i32), Tok::RParen, Tok::Semicolon];
    assert(lex_from(cs, 0) == Ok::<Seq<Tok>, crate::CompileError>(ts)) by {
        assert(seq![Tok::Exit] + seq![Tok::LParen, Tok::Number(n as i32), Tok::RParen, Tok::Semicolon] =~= ts);
    }
    assert(lex(cs) == Ok::<Seq<Tok>, crate::CompileError>(ts));
}

/// A run of word characters from `i` up to a character at `k` that is not one.
proof fn lemma_word_run(cs: Seq<char>, i: int, k: int)
    requires
        0 <= i <= k <= cs.len(),
        forall|j: int| i <= j < k ==> is_word(#[trigger] cs[j]),
        k < cs.len() ==> !is_word(cs[k]),
    ensures
        word_len(cs, i) == k - i,
    decreases k - i,
{
    if i < k {
        lemma_word_run(cs, i + 1, k);
    }
}

/// A name: a letter, then letters, digits or underscores, and no keyword.
pub open spec fn is_name(x: Seq<char>) -> bool {
    &&& x.len() >= 1
    &&& is_alpha(x[0])
    &&& forall|i: int| 0 <= i < x.len() ==> is_word(#[trigger] x[i])
    &&& word_token(x) == Tok::Ident(x)
}

/// The source text `let x = n; exit(x);`.
pub open spec fn bind_then_use_source(x: Seq<char>, n: nat) -> Seq<char> {
    "let "@ + x + " = "@ + dec_nat(n) + "; exit("@ + x + ");"@
}

proof fn lemma_lex_end(cs: Seq<char>)
    ensures
        lex_from(cs, cs.len() as int) == Ok::<Seq<Tok>, crate::CompileError>(seq![]),
{
    reveal(lex_from);
}

proof fn lemma_lex_space(cs: Seq<char>, i: int)
    requires
        0 <= i < cs.len(),
        cs[i] == ' ',
    ensures
        lex_from(cs, i) == lex_from(cs, i + 1),
{
    reveal(lex_from);
}

proof fn lemma_lex_single(cs: Seq<char>, i: int, t: Tok)
    requires
        0 <= i < cs.len(),
        single_token(cs[i]) == Some(t),
    ensures
        lex_from(cs, i) == prefixed(seq![t], lex_from(cs, i + 1)),
{
    reveal(lex_from);
}

proof fn lemma_lex_assign(cs: Seq<char>, i: int)
    requires
        0 <= i < cs.len() - 1,
        cs[i] == '=',
        cs[i + 1] == ' ',
    ensures
        lex_from(cs, i) == prefixed(seq![Tok::Equal], lex_from(cs, i + 1)),
{
    reveal(lex_from);
}

proof fn lemma_lex_word(cs: Seq<char>, i: int, k: int)
    requires
        0 <= i < k <= cs.len(),
        is_alpha(cs[i]),
        forall|j: int| i <= j < k ==> is_word(#[trigger] cs[j]),
        k < cs.len() ==> !is_word(cs[k]),
    ensures
        lex_from(cs, i) == prefixed(seq![word_token(cs.subrange(i, k))], lex_from(cs, k)),
{
    lemma_word_run(cs, i + 1, k);
    reveal(lex_from);
}

proof fn lemma_lex_number(cs: Seq<char>, i: int, k: int)
    requires
        0 <= i < k <= cs.len(),
        forall|j: int| i <= j < k ==> is_digit(#[trigger] cs[j]),
        k < cs.len() ==> !is_digit(cs[k]),
    ensures
        lex_from(cs, i) == prefixed(
            seq![Tok::Number(digits_value(cs.subrange(i, k)))],
            lex_from(cs, k),
        ),
{
    lemma_digit_run(cs, i + 1, k);
    reveal(lex_from);
}

/// The tokens of `; exit(x);` when `cs` holds that text from `p`.
proof fn lemma_lex_use_tail(cs: Seq<char>, x: Seq<char>, p: int)
    requires
        is_name(x),
        0 <= p,
        cs.len() == p + 9 + x.len(),
        cs[p] == ';' && cs[p + 1] == ' ' && cs[p + 2] == 'e' && cs[p + 3] == 'x',
        cs[p + 4] == 'i' && cs[p + 5] == 't' && cs[p + 6] == '(',
        forall|j: int| p + 7 <= j < p + 7 + x.len() ==> #[trigger] cs[j] == x[j - p - 7],
        cs[p + 7 + x.len() as int] == ')' && cs[p + 8 + x.len() as int] == ';',
    ensures
        lex_from(cs, p) == Ok::<Seq<Tok>, crate::CompileError>(
            seq![Tok::Semicolon, Tok::Exit, Tok::LParen, Tok::Ident(x), Tok::RParen, Tok::Semicolon],
        ),
{
    reveal_strlit("exit");
    reveal_strlit("let");
    let m = x.len() as int;
    let q = p + 7;
    let ts = seq![Tok::Semicolon, Tok::Exit, Tok::LParen, Tok::Ident(x), Tok::RParen, Tok::Semicolon];
    lemma_lex_end(cs);
    lemma_lex_single(cs, q + m + 1, Tok::Semicolon);
    lemma_lex_single(cs, q + m, Tok::RParen);
    assert forall|j: int| q <= j < q + m implies is_word(#[trigger] cs[j]) by {
        assert(cs[j] == x[j - q]);
    }
    assert(is_alpha(cs[q])) by {
        assert(cs[q] == x[0]);
    }
    lemma_lex_word(cs, q, q + m);
    assert(cs.subrange(q, q + m) =~= x);
    lemma_lex_single(cs, p + 6, Tok::LParen);
    lemma_lex_word(cs, p + 2, p + 6);
    assert(cs.subrange(p + 2, p + 6) =~= "exit"@);
    lemma_lex_space(cs, p + 1);
    lemma_lex_single(cs, p, Tok::Semicolon);
    assert(seq![Tok::Semicolon] + (seq![Tok::Exit] + (seq![Tok::LParen] + (seq![Tok::Ident(x)] + (seq![
        Tok::RParen,
    ] + (seq![Tok::Semicolon] + Seq::<Tok>::empty()))))) =~= ts);
}

/// The tokens of `let x = d` followed by what `cs` holds from `p`, where
/// `d` is the decimal text of `n`.
proof fn lemma_lex_bind_head(cs: Seq<char>, x: Seq<char>, n: nat, p: int, tail: Seq<Tok>)
    requires
        is_name(x),
        n <= i32::MAX,
        p == 7 + x.len() + dec_nat(n).len(),
        p < cs.len(),
        cs[0] == 'l' && cs[1] == 'e' && cs[2] == 't' && cs[3] == ' ',
        forall|j: int| 4 <= j < 4 + x.len() ==> #[trigger] cs[j] == x[j - 4],
        cs[4 + x.len() as int] == ' ' && cs[5 + x.len() as int] == '=' && cs[6 + x.len() as int] == ' ',
        forall|j: int| 7 + x.len() <= j < p ==> #[trigger] cs[j] == dec_nat(n)[j - 7 - x.len()],
        !is_digit(cs[p]),
        lex_from(cs, p) == Ok::<Seq<Tok>, crate::CompileError>(tail),
    ensures
        lex_from(cs, 0) == Ok::<Seq<Tok>, crate::CompileError>(
            seq![Tok::Let, Tok::Ident(x), Tok::Equal, Tok::Number(n as i32)] + tail,
        ),
{
    reveal_strlit("let");
    let d = dec_nat(n);
    lemma_dec_nat_digits(n);
    let m = x.len() as int;
    let p1 = 4 + m;
    let p2 = p1 + 3;
    assert forall|j: int| p2 <= j < p implies is_digit(#[trigger] cs[j]) by {
        assert(cs[j] == d[j - p2]);
    }
    lemma_lex_number(cs, p2, p);
    assert(cs.subrange(p2, p) =~= d);
    lemma_lex_space(cs, p1 + 2);
    lemma_lex_assign(cs, p1 + 1);
    lemma_lex_space(cs, p1);
    assert forall|j: int| 4 <= j < p1 implies is_word(#[trigger] cs[j]) by {
        assert(cs[j] == x[j - 4]);
    }
    assert(is_alpha(cs[4])) by {
        assert(cs[4] == x[0]);
    }
    lemma_lex_word(cs, 4, p1);
    assert(cs.subrange(4, p1) =~= x);
    lemma_lex_space(cs, 3);
    lemma_lex_word(cs, 0, 3);
    assert(cs.subrange(0, 3) =~= "let"@);
    assert(seq![Tok::Let] + (seq![Tok::Ident(x)] + (seq![Tok::Equal] + (seq![Tok::Number(n as i32)]
        + tail))) =~= seq![Tok::Let, Tok::Ident(x), Tok::Equal, Tok::Number(n as i32)] + tail);
}

proof fn lemma_lex_bind_then_use(x: Seq<char>, n: nat)
    requires
        n <= i32::MAX,
        is_name(x),
    ensures
        lex(bind_then_use_source(x, n)) == Ok::<Seq<Tok>, crate::CompileError>(
            bind_then_use_tokens(x, n as i32),
        ),
{
    reveal_strlit("let ");
    reveal_strlit(" = ");
    reveal_strlit("; exit(");
    reveal_strlit(");");
    let d = dec_nat(n);
    let m = x.len() as int;
    let l = d.len() as int;
    let a = "let "@ + x + " = "@;
    let b = a + d;
    let c = b + "; exit("@ + x;
    let cs = c + ");"@;
    assert(cs =~= bind_then_use_source(x, n));
    let p = 7 + m + l;
    assert(cs.len() == p + 9 + m);
    assert forall|j: int| p + 7 <= j < p + 7 + m implies #[trigger] cs[j] == x[j - p - 7] by {
        assert(cs[j] == c[j]);
    }
    assert(cs[p] == ';' && cs[p + 1] == ' ' && cs[p + 2] == 'e' && cs[p + 3] == 'x') by {
        assert(cs[p] == c[p] && c[p] == "; exit("@[0]);
    }
    assert(cs[p + 4] == 'i' && cs[p + 5] == 't' && cs[p + 6] == '(');
    assert(cs[p + 7 + m] == ')' && cs[p + 8 + m] == ';');
    lemma_lex_use_tail(cs, x, p);
    assert forall|j: int| 4 <= j < 4 + m implies #[trigger] cs[j] == x[j - 4] by {
        assert(cs[j] == a[j]);
    }
    assert forall|j: int| 7 + m <= j < p implies #[trigger] cs[j] == d[j - 7 - m] by {
        assert(cs[j] == b[j]);
    }
    assert(cs[0] == 'l' && cs[1] == 'e' && cs[2] == 't' && cs[3] == ' ');
    assert(cs[4 + m] == ' ' && cs[5 + m] == '=' && cs[6 + m] == ' ');
    let tail = seq![Tok::Semicolon, Tok::Exit, Tok::LParen, Tok::Ident(x), Tok::RParen, Tok::Semicolon];
    lemma_lex_bind_head(cs, x, n, p, tail);
    assert(seq![Tok::Let, Tok::Ident(x), Tok::Equal, Tok::Number(n as i32)] + tail =~= bind_then_use_tokens(
        x,
        n as i32,
    ));
}

/// Compiling the source text `let x = n; exit(x);`, for a name `x` and a
/// literal `n`, writes `n` to the first slot of the frame, at `rbp - 8`,
/// and reads that slot back into `rax` before the exit system call.
pub proof fn lemma_bind_then_use_source(x: Seq<char>, n: nat)
    requires
        n <= i32::MAX,
        is_name(x),
    ensures
        compile_spec(bind_then_use_source(x, n)) == Ok::<Seq<char>, crate::CompileError>(
            prologue(1) + let_code(x, load_literal(n as int), -8) + exit_code(load_slot(-8))
                + epilogue(),
        ),
{
    lemma_lex_bind_then_use(x, n);
    lemma_bind_then_use(x, n as i32);
}

/// Compiling `exit(y);` with no `let` before it fails with an unbound
/// name, whatever the name, and gives no text at all.
pub proof fn lemma_exit_unbound(y: Seq<char>)
    ensures
        compile_tokens(seq![Tok::Exit, Tok::LParen, Tok::Ident(y), Tok::RParen, Tok::Semicolon])
            == Err::<Seq<char>, crate::CompileError>(crate::CompileError::UnboundVariable),
{
    let ts = seq![Tok::Exit, Tok::LParen, Tok::Ident(y), Tok::RParen, Tok::Semicolon];
    let e = ExprModel::Ident(y);
    assert(p_primary(ts, 2) == Ok::<(ExprModel, nat), crate::CompileError>((e, 1nat)));
    lemma_single_operand(ts, 2, e);
    assert(p_paren(ts, 1) == Ok::<(ExprModel, nat), crate::CompileError>((e, 3nat)));
    let s = StmtModel::Exit(e);
    assert(p_exit(ts, 1) == Ok::<(StmtModel, nat), crate::CompileError>((s, 4nat)));
    assert(p_stmt(ts, 1, Tok::Exit) == p_exit(ts, 1));
    assert(p_stmts(ts, 5, seq![s]) == Ok::<(Seq<StmtModel>, nat), crate::CompileError>((seq![s], 0nat)));
    assert(seq![].push(s) =~= seq![s]);
    assert(p_stmts(ts, 0, seq![]) == Ok::<(Seq<StmtModel>, nat), crate::CompileError>((seq![s], 5nat)));
    assert(parse_program(ts) == Ok::<Seq<StmtModel>, crate::CompileError>(seq![s]));
    let st = initial_state();
    assert(seq![s].drop_last() =~= seq![]);
    assert(gen_stmts(st, seq![]) == Ok::<(GenState, Seq<char>), crate::CompileError>((st, seq![])));
    assert(lookup(st.vars, y) is None);
    assert(gen_stmt(st, s) == Err::<(GenState, Seq<char>), crate::CompileError>(crate::CompileError::UnboundVariable));
}

/// Whether an operator is a comparison.
pub open spec fn is_comparison(op: Op) -> bool {
    op == Op::Eq || op == Op::NotEq || op == Op::Gt || op == Op::Gte || op == Op::Lt || op == Op::Lte
}

/// The instruction that sets `al` when a comparison holds.
pub open spec fn set_instr(op: Op) -> Seq<char> {
    match op {
        Op::Eq => "sete al"@,
        Op::NotEq => "setne al"@,
        Op::Gt => "setg al"@,
        Op::Gte => "setge al"@,
        Op::Lt => "setl al"@,
        _ => "setle al"@,
    }
}

/// A comparison `l op r` evaluates `r`, keeps it on the stack, evaluates
/// `l`, pops `r` into `rbx`, then compares, sets `al` when the comparison
/// holds and widens `al` into `rax`, in that order.
pub proof fn lemma_comparison_lowering(
    vars: Seq<(Seq<char>, int)>,
    l: ExprModel,
    op: Op,
    r: ExprModel,
)
    requires
        is_comparison(op),
        gen_expr(vars, l) is Ok,
        gen_expr(vars, r) is Ok,
    ensures
        gen_expr(vars, ExprModel::BinOp(Box::new(l), op, Box::new(r))) == Ok::<
            Seq<char>,
            crate::CompileError,
        >(
            gen_expr(vars, r)->Ok_0 + ind("push rax"@) + gen_expr(vars, l)->Ok_0 + ind("pop rbx"@)
                + ind("cmp rax, rbx"@) + ind(set_instr(op)) + ind("movzx rax, al"@),
        ),
{
    let rc = gen_expr(vars, r)->Ok_0;
    let lc = gen_expr(vars, l)->Ok_0;
    assert(rc + ind("push rax"@) + lc + ind("pop rbx"@) + op_code(op) =~= rc + ind("push rax"@) + lc
        + ind("pop rbx"@) + ind("cmp rax, rbx"@) + ind(set_instr(op)) + ind("movzx rax, al"@));
}

/// Whether every unary operator in `e` is `-`.
pub open spec fn minus_only(e: ExprModel) -> bool
    decreases e,
{
    match e {
        ExprModel::BinOp(l, _, r) => minus_only(*l) && minus_only(*r),
        ExprModel::UnaryOp(op, x) => op == Op::Sub && minus_only(*x),
        _ => true,
    }
}

/// Whether every name that `e` reads is bound in `vars`.
pub open spec fn all_bound(vars: Seq<(Seq<char>, int)>, e: ExprModel) -> bool
    decreases e,
{
    match e {
        ExprModel::Ident(x) => lookup(vars, x) is Some,
        ExprModel::Num(_) => true,
        ExprModel::BinOp(l, _, r) => all_bound(vars, *l) && all_bound(vars, *r),
        ExprModel::UnaryOp(_, x) => all_bound(vars, *x),
    }
}

/// An expression whose unary operators are all `-` lowers to code exactly
/// when every name it reads is bound; otherwise lowering fails with an
/// unbound name and gives no code.
pub proof fn lemma_unbound_fails(vars: Seq<(Seq<char>, int)>, e: ExprModel)
    requires
        minus_only(e),
    ensures
        gen_expr(vars, e) is Ok <==> all_bound(vars, e),
        !all_bound(vars, e) ==> gen_expr(vars, e) == Err::<Seq<char>, crate::CompileError>(
            crate::CompileError::UnboundVariable,
        ),
    decreases e,
{
    match e {
        ExprModel::BinOp(l, _, r) => {
            lemma_unbound_fails(vars, *l);
            lemma_unbound_fails(vars, *r);
        },
        ExprModel::UnaryOp(_, x) => {
            lemma_unbound_fails(vars, *x);
        },
        _ => {},
    }
}

/// Every slot of `st` lies at or above the slot taken last.
pub open spec fn slots_above(st: GenState) -> bool {
    forall|i: int| 0 <= i < st.vars.len() ==> #[trigger] st.vars[i].1 >= st.offset
}

/// A `let` takes a fresh slot 8 bytes below the one taken last, which no
/// earlier binding uses, also when it binds a name again; the name then
/// refers to the new slot, and every slot still lies at or above it.
pub proof fn lemma_let_fresh_slot(st: GenState, x: Seq<char>, e: ExprModel)
    requires
        slots_above(st),
        gen_stmt(st, StmtModel::Let(x, e)) is Ok,
    ensures
        ({
            let st2 = gen_stmt(st, StmtModel::Let(x, e))->Ok_0.0;
            &&& st2.offset == st.offset - 8
            &&& forall|i: int| 0 <= i < st.vars.len() ==> #[trigger] st.vars[i].1 != st2.offset
            &&& lookup(st2.vars, x) == Some(st.offset - 8)
            &&& slots_above(st2)
            &&& st2.label == st.label
        }),
{
    let st2 = gen_stmt(st, StmtModel::Let(x, e))->Ok_0.0;
    assert(st2.vars == st.vars.push((x, st.offset - 8)));
    assert(st2.vars.drop_last() =~= st.vars);
    assert forall|i: int| 0 <= i < st2.vars.len() implies #[trigger] st2.vars[i].1 >= st2.offset by {
        if i < st.vars.len() {
            assert(st2.vars[i] == st.vars[i]);
        }
    }
}

/// The state before any statement has no slot.
pub proof fn lemma_initial_slots()
    ensures
        slots_above(initial_state()),
{
}

/// `-a*b` for literals `a` and `b`: the `-` applies to `a` alone, so the
/// expression is the product of `-a` and `b`.
pub open spec fn negated_product(a: i32, b: i32) -> ExprModel {
    ExprModel::BinOp(
        Box::new(ExprModel::UnaryOp(Op::Sub, Box::new(ExprModel::Num(a)))),
        Op::Mul,
        Box::new(ExprModel::Num(b)),
    )
}

/// The tokens `- a * b` parse as `(-a) * b`: a leading sign takes the
/// primary right after it, not the product.
pub proof fn lemma_unary_binds_primary(a: i32, b: i32)
    ensures
        p_expr(seq![Tok::Minus, Tok::Number(a), Tok::Asterisk, Tok::Number(b)], 0) == Ok::<
            (ExprModel, nat),
            crate::CompileError,
        >((negated_product(a, b), 4nat)),
{
    let ts = seq![Tok::Minus, Tok::Number(a), Tok::Asterisk, Tok::Number(b)];
    let u = ExprModel::UnaryOp(Op::Sub, Box::new(ExprModel::Num(a)));
    let e = negated_product(a, b);
    assert(p_primary(ts, 1) == Ok::<(ExprModel, nat), crate::CompileError>((ExprModel::Num(a), 1nat)));
    assert(p_unary(ts, 0) == Ok::<(ExprModel, nat), crate::CompileError>((u, 2nat)));
    assert(p_primary(ts, 3) == Ok::<(ExprModel, nat), crate::CompileError>((ExprModel::Num(b), 1nat)));
    assert(p_unary(ts, 3) == p_primary(ts, 3));
    assert(p_operand(ts, 3, 2) == p_unary(ts, 3));
    assert(p_chain(ts, 4, 2, e) == Ok::<(ExprModel, nat), crate::CompileError>((e, 0nat)));
    assert(op_at(ts, 2, 2) == Some(Op::Mul));
    assert(p_chain(ts, 2, 2, u) == Ok::<(ExprModel, nat), crate::CompileError>((e, 2nat)));
    assert(p_operand(ts, 0, 2) == p_unary(ts, 0));
    assert(p_tier(ts, 0, 2) == Ok::<(ExprModel, nat), crate::CompileError>((e, 4nat)));
    assert(p_operand(ts, 0, 1) == p_tier(ts, 0, 2));
    assert(p_chain(ts, 4, 1, e) == Ok::<(ExprModel, nat), crate::CompileError>((e, 0nat)));
    assert(p_tier(ts, 0, 1) == Ok::<(ExprModel, nat), crate::CompileError>((e, 4nat)));
    assert(p_operand(ts, 0, 0) == p_tier(ts, 0, 1));
    assert(p_chain(ts, 4, 0, e) == Ok::<(ExprModel, nat), crate::CompileError>((e, 0nat)));
    assert(p_tier(ts, 0, 0) == Ok::<(ExprModel, nat), crate::CompileError>((e, 4nat)));
}

/// `(-a) * b` negates `a` in `rax` before the multiply: the code loads
/// `b`, keeps it, loads `a`, negates it, pops `b` and multiplies.
pub proof fn lemma_negate_then_multiply(vars: Seq<(Seq<char>, int)>, a: i32, b: i32)
    ensures
        gen_expr(vars, negated_product(a, b)) == Ok::<Seq<char>, crate::CompileError>(
            load_literal(b as int) + ind("push rax"@) + load_literal(a as int) + ind("neg rax"@)
                + ind("pop rbx"@) + ind("imul rax, rbx"@),
        ),
{
    let u = ExprModel::UnaryOp(Op::Sub, Box::new(ExprModel::Num(a)));
    assert(gen_expr(vars, ExprModel::Num(a)) == Ok::<Seq<char>, crate::CompileError>(load_literal(a as int)));
    assert(gen_expr(vars, u) == Ok::<Seq<char>, crate::CompileError>(load_literal(a as int) + ind("neg rax"@)));
    assert(gen_expr(vars, ExprModel::Num(b)) == Ok::<Seq<char>, crate::CompileError>(load_literal(b as int)));
    assert(load_literal(b as int) + ind("push rax"@) + (load_literal(a as int) + ind("neg rax"@)) + ind(
        "pop rbx"@,
    ) + op_code(Op::Mul) =~= load_literal(b as int) + ind("push rax"@) + load_literal(a as int) + ind(
        "neg rax"@,
    ) + ind("pop rbx"@) + ind("imul rax, rbx"@));
}

/// Lowering a statement only raises the label counter. Each label takes
/// the counter's value and raises it by one, so within one pass no two
/// labels share a number, whatever the nesting.
pub proof fn lemma_gen_stmt_mono(st: GenState, s: StmtModel)
    requires
        gen_stmt(st, s) is Ok,
    ensures
        gen_stmt(st, s)->Ok_0.0.label >= st.label,
    decreases s,
{
    match s {
        StmtModel::While(c, b) => {
            let st2 = fresh(fresh(st)->Ok_0.0)->Ok_0.0;
            lemma_gen_stmts_mono(st2, b);
        },
        StmtModel::If(c, t, es, eb) => {
            let (st1, end) = fresh(st)->Ok_0;
            if es.len() == 0 && eb is None {
                lemma_gen_stmts_mono(st1, t);
            } else {
                let (st2, first) = fresh(st1)->Ok_0;
                lemma_gen_stmts_mono(st2, t);
                let st3 = gen_stmts(st2, t)->Ok_0.0;
                lemma_gen_elifs_mono(st3, end, first, es);
                let st4 = gen_elifs(st3, end, first, es)->Ok_0.0;
                lemma_gen_else_mono(st4, eb);
            }
        },
        _ => {},
    }
}

/// Lowering a sequence of statements only raises the label counter.
pub proof fn lemma_gen_stmts_mono(st: GenState, ss: Seq<StmtModel>)
    requires
        gen_stmts(st, ss) is Ok,
    ensures
        gen_stmts(st, ss)->Ok_0.0.label >= st.label,
    decreases ss,
{
    if ss.len() > 0 {
        lemma_gen_stmts_mono(st, ss.drop_last());
        lemma_gen_stmt_mono(gen_stmts(st, ss.drop_last())->Ok_0.0, ss.last());
    }
}

/// Each `elif` branch takes its label from a counter that only grows, so
/// the label that the last branch names lies between the counter before
/// the branches and the counter after them.
pub proof fn lemma_gen_elifs_mono(st: GenState, end: int, first: int, es: Seq<(ExprModel, Seq<StmtModel>)>)
    requires
        gen_elifs(st, end, first, es) is Ok,
    ensures
        gen_elifs(st, end, first, es)->Ok_0.0.label >= st.label,
        es.len() == 0 ==> gen_elifs(st, end, first, es)->Ok_0.2 == first,
        es.len() > 0 ==> st.label <= gen_elifs(st, end, first, es)->Ok_0.2 < gen_elifs(
            st,
            end,
            first,
            es,
        )->Ok_0.0.label,
    decreases es,
{
    if es.len() > 0 {
        let pre = es.drop_last();
        lemma_gen_elifs_mono(st, end, first, pre);
        let st1 = gen_elifs(st, end, first, pre)->Ok_0.0;
        let st2 = fresh(st1)->Ok_0.0;
        lemma_gen_stmts_mono(st2, es.last().1);
    }
}

/// Lowering an optional `else` block only raises the label counter.
pub proof fn lemma_gen_else_mono(st: GenState, eb: Option<Seq<StmtModel>>)
    requires
        gen_else(st, eb) is Ok,
    ensures
        gen_else(st, eb)->Ok_0.0.label >= st.label,
    decreases eb,
{
    if let Some(b) = eb {
        lemma_gen_stmts_mono(st, b);
    }
}

/// Whether a sequence of numbers rises strictly.
pub open spec fn rises(s: Seq<int>) -> bool {
    forall|i: int, j: int| 0 <= i < j < s.len() ==> #[trigger] s[i] < #[trigger] s[j]
}

/// The labels that the conditions of an `if` and its `elif` branches jump
/// to when false: `first`, then the label each `elif` branch names.
pub open spec fn elif_targets(
    st: GenState,
    end: int,
    first: int,
    es: Seq<(ExprModel, Seq<StmtModel>)>,
) -> Seq<int>
    decreases es.len(),
{
    if es.len() == 0 {
        seq![first]
    } else {
        elif_targets(st, end, first, es.drop_last()).push(gen_elifs(st, end, first, es)->Ok_0.2)
    }
}

/// The N+1 targets of N `elif` branches rise strictly, from `first` to the
/// label that starts the `else` part, whatever the branches' bodies hold.
pub proof fn lemma_elif_targets_rise(st: GenState, end: int, first: int, es: Seq<(ExprModel, Seq<StmtModel>)>)
    requires
        first < st.label,
        gen_elifs(st, end, first, es) is Ok,
    ensures
        elif_targets(st, end, first, es).len() == es.len() + 1,
        elif_targets(st, end, first, es)[0] == first,
        elif_targets(st, end, first, es).last() == gen_elifs(st, end, first, es)->Ok_0.2,
        forall|i: int, j: int|
            0 <= i < j < es.len() + 1 ==> #[trigger] elif_targets(st, end, first, es)[i]
                < #[trigger] elif_targets(st, end, first, es)[j],
    decreases es.len(),
{
    lemma_gen_elifs_mono(st, end, first, es);
    if es.len() > 0 {
        let pre = es.drop_last();
        lemma_elif_targets_rise(st, end, first, pre);
        lemma_gen_elifs_mono(st, end, first, pre);
        let ts = elif_targets(st, end, first, es);
        let tp = elif_targets(st, end, first, pre);
        assert(ts == tp.push(gen_elifs(st, end, first, es)->Ok_0.2));
        let st1 = gen_elifs(st, end, first, pre)->Ok_0.0;
        assert(gen_elifs(st, end, first, es)->Ok_0.2 == st1.label);
        assert(tp.last() < st1.label);
        assert forall|i: int, j: int| 0 <= i < j < es.len() + 1 implies #[trigger] ts[i] < #[trigger] ts[j] by {
            if j < es.len() {
                assert(ts[i] == tp[i] && ts[j] == tp[j]);
            } else {
                assert(ts[i] == tp[i]);
                if i < tp.len() - 1 {
                    assert(tp[i] < tp[tp.len() - 1]);
                }
            }
        }
    }
}

/// In an `if` with N `elif` branches or an `else` block, whatever its
/// bodies hold, generated from a state whose next label is L: the end label
/// is `.if_end_L`, which the `then` block and each `elif` block jump to;
/// the conditions jump on false to N+1 labels `.elif_k` whose numbers rise
/// strictly from L+1, so no two coincide and none is the end label; the
/// last of them starts the `else` part.
pub proof fn lemma_if_chain_distinct(
    st: GenState,
    c: ExprModel,
    t: Seq<StmtModel>,
    es: Seq<(ExprModel, Seq<StmtModel>)>,
    eb: Option<Seq<StmtModel>>,
)
    requires
        es.len() > 0 || eb is Some,
        gen_stmt(st, StmtModel::If(c, t, es, eb)) is Ok,
    ensures
        exists|st3: GenState, cc: Seq<char>, tc: Seq<char>, elc: Seq<char>|
            {
                &&& st3.label > st.label + 1
                &&& gen_elifs(st3, st.label, st.label + 1, es) is Ok
                &&& elif_targets(st3, st.label, st.label + 1, es).len() == es.len() + 1
                &&& elif_targets(st3, st.label, st.label + 1, es)[0] == st.label + 1
                &&& rises(elif_targets(st3, st.label, st.label + 1, es))
                &&& gen_stmt(st, StmtModel::If(c, t, es, eb))->Ok_0.1 == #[trigger] if_chain_code(
                    st.label,
                    st.label + 1,
                    elif_targets(st3, st.label, st.label + 1, es).last(),
                    cc,
                    tc,
                    gen_elifs(st3, st.label, st.label + 1, es)->Ok_0.1,
                    elc,
                )
            },
{
    let (st1, end) = fresh(st)->Ok_0;
    let cc = gen_expr(st1.vars, c)->Ok_0;
    let (st2, first) = fresh(st1)->Ok_0;
    let (st3, tc) = gen_stmts(st2, t)->Ok_0;
    lemma_gen_stmts_mono(st2, t);
    lemma_elif_targets_rise(st3, end, first, es);
    let (st4, ec, last) = gen_elifs(st3, end, first, es)->Ok_0;
    let elc = gen_else(st4, eb)->Ok_0.1;
    let ts = elif_targets(st3, end, first, es);
    assert(rises(ts));
    assert(gen_stmt(st, StmtModel::If(c, t, es, eb))->Ok_0.1 == if_chain_code(
        end,
        first,
        ts.last(),
        cc,
        tc,
        ec,
        elc,
    ));
}

} // verus!
