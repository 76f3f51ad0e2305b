//! The parser: tokens to statements, by recursive descent with one level of
//! functions per precedence tier.
//!
//! Each parsing function of the model takes the token sequence and a start
//! index, and on success gives the tree and the number of tokens it took.
use vstd::prelude::*;

use crate::ast::{
    elifs_model, lemma_elifs_model_push, lemma_stmts_model_push, stmts_model, Expr, ExprModel, Op,
    Stmt, StmtModel,
};
use crate::lexer::{toks_of, Tok, Token};
use crate::CompileError;

verus! {

broadcast use vstd::std_specs::vec::group_vec_axioms, vstd::seq::group_seq_axioms;

/// The result of parsing an expression: the tree and the tokens taken.
pub type ExprParse = Result<(ExprModel, nat), CompileError>;

/// The result of parsing a statement sequence.
pub type StmtsParse = Result<(Seq<StmtModel>, nat), CompileError>;

/// The result of parsing a sequence of `elif` branches.
pub type ElifsParse = Result<(Seq<(ExprModel, Seq<StmtModel>)>, nat), CompileError>;

/// The termination measure: the tokens left from `pos` on.
pub open spec fn left(ts: Seq<Tok>, pos: int) -> nat {
    if pos <= ts.len() {
        (ts.len() - pos) as nat
    } else {
        0
    }
}

/// Whether the token at `pos` exists and is `t`.
pub open spec fn is_tok(ts: Seq<Tok>, pos: int, t: Tok) -> bool {
    0 <= pos < ts.len() && ts[pos] == t
}

/// Counts `k` more tokens as taken.
pub open spec fn shifted(r: ExprParse, k: nat) -> ExprParse {
    match r {
        Ok((e, n)) => Ok((e, n + k)),
        Err(x) => Err(x),
    }
}

pub open spec fn cmp_op(t: Tok) -> Option<Op> {
    match t {
        Tok::EqualEqual => Some(Op::Eq),
        Tok::NotEqual => Some(Op::NotEq),
        Tok::Greater => Some(Op::Gt),
        Tok::GreaterEqual => Some(Op::Gte),
        Tok::Less => Some(Op::Lt),
        Tok::LessEqual => Some(Op::Lte),
        _ => None,
    }
}

pub open spec fn add_op(t: Tok) -> Option<Op> {
    match t {
        Tok::Plus => Some(Op::Add),
        Tok::Minus => Some(Op::Sub),
        _ => None,
    }
}

pub open spec fn mul_op(t: Tok) -> Option<Op> {
    match t {
        Tok::Asterisk => Some(Op::Mul),
        Tok::Slash => Some(Op::Div),
        _ => None,
    }
}

/// The operator of the token at `pos` at one precedence tier
/// (0: comparison, 1: additive, 2: multiplicative).
pub open spec fn op_at(ts: Seq<Tok>, pos: int, tier: nat) -> Option<Op> {
    if 0 <= pos < ts.len() {
        if tier == 0 {
            cmp_op(ts[pos])
        } else if tier == 1 {
            add_op(ts[pos])
        } else {
            mul_op(ts[pos])
        }
    } else {
        None
    }
}

/// An expression in parentheses.
pub open spec fn p_paren(ts: Seq<Tok>, pos: int) -> ExprParse
    decreases left(ts, pos), 0int,
{
    if is_tok(ts, pos, Tok::LParen) {
        match p_expr(ts, pos + 1) {
            Ok((e, n)) => if is_tok(ts, pos + 1 + n, Tok::RParen) {
                Ok((e, n + 2))
            } else {
                Err(CompileError::Syntax)
            },
            Err(x) => Err(x),
        }
    } else {
        Err(CompileError::Syntax)
    }
}

/// An expression: the comparison tier.
pub open spec fn p_expr(ts: Seq<Tok>, pos: int) -> ExprParse
    decreases left(ts, pos), 12int,
{
    p_tier(ts, pos, 0)
}

/// One binary tier: an operand of the next tier, then a left-associative
/// chain of operators of this tier, each followed by such an operand.
pub open spec fn p_tier(ts: Seq<Tok>, pos: int, tier: nat) -> ExprParse
    decreases left(ts, pos), 11 - 3 * tier,
    when tier <= 2
{
    match p_operand(ts, pos, tier) {
        Ok((l, n)) => shifted(p_chain(ts, pos + n, tier, l), n),
        Err(x) => Err(x),
    }
}

/// The operand of a binary tier.
pub open spec fn p_operand(ts: Seq<Tok>, pos: int, tier: nat) -> ExprParse
    decreases left(ts, pos), 10 - 3 * tier,
    when tier <= 2
{
    if tier < 2 {
        p_tier(ts, pos, tier + 1)
    } else {
        p_unary(ts, pos)
    }
}

/// The rest of a chain at one tier, after the operand `l`.
pub open spec fn p_chain(ts: Seq<Tok>, pos: int, tier: nat, l: ExprModel) -> ExprParse
    decreases left(ts, pos), 10 - 3 * tier,
    when tier <= 2
{
    match op_at(ts, pos, tier) {
        Some(op) => match p_operand(ts, pos + 1, tier) {
            Ok((r, m)) => shifted(
                p_chain(ts, pos + 1 + m, tier, ExprModel::BinOp(Box::new(l), op, Box::new(r))),
                1 + m,
            ),
            Err(x) => Err(x),
        },
        None => Ok((l, 0)),
    }
}

/// A leading `+` or `-` applies to the primary that follows it alone.
pub open spec fn p_unary(ts: Seq<Tok>, pos: int) -> ExprParse
    decreases left(ts, pos), 2int,
{
    if is_tok(ts, pos, Tok::Plus) || is_tok(ts, pos, Tok::Minus) {
        let op = if ts[pos] == Tok::Plus {
            Op::Add
        } else {
            Op::Sub
        };
        match p_primary(ts, pos + 1) {
            Ok((e, n)) => Ok((ExprModel::UnaryOp(op, Box::new(e)), n + 1)),
            Err(x) => Err(x),
        }
    } else {
        p_primary(ts, pos)
    }
}

/// A number, a name, or an expression in parentheses.
pub open spec fn p_primary(ts: Seq<Tok>, pos: int) -> ExprParse
    decreases left(ts, pos), 1int,
{
    if 0 <= pos < ts.len() {
        match ts[pos] {
            Tok::Number(n) => Ok((ExprModel::Num(n), 1)),
            Tok::Ident(x) => Ok((ExprModel::Ident(x), 1)),
            Tok::LParen => p_paren(ts, pos),
            _ => Err(CompileError::Syntax),
        }
    } else {
        Err(CompileError::Syntax)
    }
}

pub open spec fn shifted_stmts(r: StmtsParse, k: nat) -> StmtsParse {
    match r {
        Ok((ss, n)) => Ok((ss, n + k)),
        Err(x) => Err(x),
    }
}

pub open spec fn shifted_elifs(r: ElifsParse, k: nat) -> ElifsParse {
    match r {
        Ok((es, n)) => Ok((es, n + k)),
        Err(x) => Err(x),
    }
}

/// A block: statements between braces.
pub open spec fn p_block(ts: Seq<Tok>, pos: int) -> StmtsParse
    decreases left(ts, pos), 18int,
{
    if is_tok(ts, pos, Tok::LBrace) {
        match p_stmts(ts, pos + 1, seq![]) {
            Ok((b, n)) => if is_tok(ts, pos + 1 + n, Tok::RBrace) {
                Ok((b, n + 2))
            } else {
                Err(CompileError::Syntax)
            },
            Err(x) => Err(x),
        }
    } else {
        Err(CompileError::Syntax)
    }
}

/// Statements from `pos` on, after the statements `acc`, up to the end of
/// the tokens or up to a `}`, which is left where it is.
pub open spec fn p_stmts(ts: Seq<Tok>, pos: int, acc: Seq<StmtModel>) -> StmtsParse
    decreases left(ts, pos), 16int,
{
    if 0 <= pos < ts.len() && ts[pos] != Tok::RBrace {
        match p_stmt(ts, pos + 1, ts[pos]) {
            Ok((s, k)) => shifted_stmts(p_stmts(ts, pos + 1 + k, acc.push(s)), 1 + k),
            Err(x) => Err(x),
        }
    } else {
        Ok((acc, 0))
    }
}

/// The statement that the keyword `kw` starts, from the token after it.
pub open spec fn p_stmt(ts: Seq<Tok>, pos: int, kw: Tok) -> Result<(StmtModel, nat), CompileError>
    decreases left(ts, pos), 21int,
{
    match kw {
        Tok::Let => p_let(ts, pos),
        Tok::Exit => p_exit(ts, pos),
        Tok::While => p_while(ts, pos),
        Tok::If => p_if(ts, pos),
        _ => Err(CompileError::Syntax),
    }
}

/// `let` NAME `=` expression `;`, after the `let`.
pub open spec fn p_let(ts: Seq<Tok>, pos: int) -> Result<(StmtModel, nat), CompileError>
    decreases left(ts, pos), 20int,
{
    if 0 <= pos < ts.len() && ts[pos] is Ident && is_tok(ts, pos + 1, Tok::Equal) {
        match p_expr(ts, pos + 2) {
            Ok((e, n)) => if is_tok(ts, pos + 2 + n, Tok::Semicolon) {
                Ok((StmtModel::Let(ts[pos]->Ident_0, e), n + 3))
            } else {
                Err(CompileError::Syntax)
            },
            Err(x) => Err(x),
        }
    } else {
        Err(CompileError::Syntax)
    }
}

/// `exit` `(` expression `)` `;`, after the `exit`.
pub open spec fn p_exit(ts: Seq<Tok>, pos: int) -> Result<(StmtModel, nat), CompileError>
    decreases left(ts, pos), 20int,
{
    match p_paren(ts, pos) {
        Ok((e, n)) => if is_tok(ts, pos + n, Tok::Semicolon) {
            Ok((StmtModel::Exit(e), n + 1))
        } else {
            Err(CompileError::Syntax)
        },
        Err(x) => Err(x),
    }
}

/// `while` `(` condition `)` block, after the `while`.
pub open spec fn p_while(ts: Seq<Tok>, pos: int) -> Result<(StmtModel, nat), CompileError>
    decreases left(ts, pos), 20int,
{
    match p_paren(ts, pos) {
        Ok((c, n)) => match p_block(ts, pos + n) {
            Ok((b, m)) => Ok((StmtModel::While(c, b), n + m)),
            Err(x) => Err(x),
        },
        Err(x) => Err(x),
    }
}

/// `if` `(` condition `)` block, then `elif` branches and an optional
/// `else` block, after the `if`.
pub open spec fn p_if(ts: Seq<Tok>, pos: int) -> Result<(StmtModel, nat), CompileError>
    decreases left(ts, pos), 20int,
{
    match p_paren(ts, pos) {
        Ok((c, n)) => match p_block(ts, pos + n) {
            Ok((t, m)) => match p_elifs(ts, pos + n + m, seq![]) {
                Ok((es, k)) => match p_else(ts, pos + n + m + k) {
                    Ok((eb, l)) => Ok((StmtModel::If(c, t, es, eb), n + m + k + l)),
                    Err(x) => Err(x),
                },
                Err(x) => Err(x),
            },
            Err(x) => Err(x),
        },
        Err(x) => Err(x),
    }
}

/// `elif` branches from `pos` on, after the branches `acc`.
pub open spec fn p_elifs(
    ts: Seq<Tok>,
    pos: int,
    acc: Seq<(ExprModel, Seq<StmtModel>)>,
) -> ElifsParse
    decreases left(ts, pos), 17int,
{
    if is_tok(ts, pos, Tok::Elif) {
        match p_paren(ts, pos + 1) {
            Ok((c, n)) => match p_block(ts, pos + 1 + n) {
                Ok((b, m)) => shifted_elifs(p_elifs(ts, pos + 1 + n + m, acc.push((c, b))), 1 + n + m),
                Err(x) => Err(x),
            },
            Err(x) => Err(x),
        }
    } else {
        Ok((acc, 0))
    }
}

/// An optional `else` block.
pub open spec fn p_else(ts: Seq<Tok>, pos: int) -> Result<(Option<Seq<StmtModel>>, nat), CompileError>
    decreases left(ts, pos), 17int,
{
    if is_tok(ts, pos, Tok::Else) {
        match p_block(ts, pos + 1) {
            Ok((b, m)) => Ok((Some(b), m + 1)),
            Err(x) => Err(x),
        }
    } else {
        Ok((None, 0))
    }
}

/// The statements from `pos` to the end of the tokens. A `}` ends only a
/// nested block, so one that stops the statements here is an error.
pub open spec fn p_program(ts: Seq<Tok>, pos: int) -> Result<Seq<StmtModel>, CompileError> {
    match p_stmts(ts, pos, seq![]) {
        Ok((ss, n)) => if pos + n == ts.len() {
            Ok(ss)
        } else {
            Err(CompileError::Syntax)
        },
        Err(x) => Err(x),
    }
}

/// The statements of a whole program.
pub open spec fn parse_program(ts: Seq<Tok>) -> Result<Seq<StmtModel>, CompileError> {
    p_program(ts, 0)
}

/// An exec parse result of an expression agrees with the model's.
pub open spec fn expr_agrees(r: Result<(Expr, usize), CompileError>, pos: int, len: int, s: ExprParse) -> bool {
    match r {
        Ok((e, end)) => pos <= end <= len && s == Ok::<(ExprModel, nat), CompileError>(
            (e@, (end - pos) as nat),
        ),
        Err(x) => s == Err::<(ExprModel, nat), CompileError>(x),
    }
}

pub open spec fn stmts_agrees(r: Result<(Vec<Stmt>, usize), CompileError>, pos: int, len: int, s: StmtsParse) -> bool {
    match r {
        Ok((ss, end)) => pos <= end <= len && s == Ok::<(Seq<StmtModel>, nat), CompileError>(
            (stmts_model(ss@), (end - pos) as nat),
        ),
        Err(x) => s == Err::<(Seq<StmtModel>, nat), CompileError>(x),
    }
}

pub open spec fn stmt_agrees(
    r: Result<(Stmt, usize), CompileError>,
    pos: int,
    len: int,
    s: Result<(StmtModel, nat), CompileError>,
) -> bool {
    match r {
        Ok((st, end)) => pos <= end <= len && s == Ok::<(StmtModel, nat), CompileError>(
            (st@, (end - pos) as nat),
        ),
        Err(x) => s == Err::<(StmtModel, nat), CompileError>(x),
    }
}

/// Whether a token has no fields.
pub open spec fn fieldless(t: Tok) -> bool {
    !(t is Ident) && !(t is Number)
}

/// A parser over one token sequence.
pub struct Parser {
    tokens: Vec<Token>,
    pos: usize,
}

impl Parser {
    /// The models of the tokens.
    pub closed spec fn toks(&self) -> Seq<Tok> {
        toks_of(self.tokens@)
    }

    /// The index of the next token to read.
    pub closed spec fn position(&self) -> int {
        self.pos as int
    }

    pub closed spec fn wf(&self) -> bool {
        self.pos <= self.tokens@.len()
    }

    /// A parser at the start of `tokens`.
    pub fn new(tokens: Vec<Token>) -> (p: Parser)
        ensures
            p.wf(),
            p.toks() == toks_of(tokens@),
            p.position() == 0,
    {
        Parser { tokens, pos: 0 }
    }

    /// Whether the token at `pos` exists and is `t`, which has no fields.
    fn expect(&self, pos: usize, t: Token) -> (b: bool)
        requires
            fieldless(t@),
        ensures
            b == is_tok(self.toks(), pos as int, t@),
            b ==> pos < self.tokens@.len(),
            self.tokens@.len() <= usize::MAX,
    {
        if pos >= self.tokens.len() {
            return false;
        }
        match (&self.tokens[pos], &t) {
            (Token::Let, Token::Let) => true,
            (Token::While, Token::While) => true,
            (Token::If, Token::If) => true,
            (Token::Elif, Token::Elif) => true,
            (Token::Else, Token::Else) => true,
            (Token::Exit, Token::Exit) => true,
            (Token::Equal, Token::Equal) => true,
            (Token::Plus, Token::Plus) => true,
            (Token::Minus, Token::Minus) => true,
            (Token::Asterisk, Token::Asterisk) => true,
            (Token::Slash, Token::Slash) => true,
            (Token::LParen, Token::LParen) => true,
            (Token::RParen, Token::RParen) => true,
            (Token::LBrace, Token::LBrace) => true,
            (Token::RBrace, Token::RBrace) => true,
            (Token::Semicolon, Token::Semicolon) => true,
            (Token::EqualEqual, Token::EqualEqual) => true,
            (Token::NotEqual, Token::NotEqual) => true,
            (Token::Greater, Token::Greater) => true,
            (Token::GreaterEqual, Token::GreaterEqual) => true,
            (Token::Less, Token::Less) => true,
            (Token::LessEqual, Token::LessEqual) => true,
            _ => false,
        }
    }

    /// The operator of the token at `pos` at one precedence tier.
    fn op_at(&self, pos: usize, tier: usize) -> (r: Option<Op>)
        ensures
            r == op_at(self.toks(), pos as int, tier as nat),
            r is Some ==> pos < self.tokens@.len(),
            self.tokens@.len() <= usize::MAX,
    {
        if pos >= self.tokens.len() {
            return None;
        }
        if tier == 0 {
            match &self.tokens[pos] {
                Token::EqualEqual => Some(Op::Eq),
                Token::NotEqual => Some(Op::NotEq),
                Token::Greater => Some(Op::Gt),
                Token::GreaterEqual => Some(Op::Gte),
                Token::Less => Some(Op::Lt),
                Token::LessEqual => Some(Op::Lte),
                _ => None,
            }
        } else if tier == 1 {
            match &self.tokens[pos] {
                Token::Plus => Some(Op::Add),
                Token::Minus => Some(Op::Sub),
                _ => None,
            }
        } else {
            match &self.tokens[pos] {
                Token::Asterisk => Some(Op::Mul),
                Token::Slash => Some(Op::Div),
                _ => None,
            }
        }
    }

    fn parse_expr_at(&self, pos: usize) -> (r: Result<(Expr, usize), CompileError>)
        requires
            pos <= self.tokens@.len(),
        ensures
            expr_agrees(r, pos as int, self.tokens@.len() as int, p_expr(self.toks(), pos as int)),
        decreases self.tokens@.len() - pos, 12int,
    {
        self.parse_tier(pos, 0)
    }

    fn parse_tier(&self, pos: usize, tier: usize) -> (r: Result<(Expr, usize), CompileError>)
        requires
            pos <= self.tokens@.len(),
            tier <= 2,
        ensures
            expr_agrees(r, pos as int, self.tokens@.len() as int, p_tier(self.toks(), pos as int, tier as nat)),
        decreases self.tokens@.len() - pos, 11 - 3 * tier,
    {
        match self.parse_operand(pos, tier) {
            Ok((l, p)) => match self.parse_chain(p, tier, l) {
                Ok((e, end)) => Ok((e, end)),
                Err(x) => Err(x),
            },
            Err(x) => Err(x),
        }
    }

    fn parse_operand(&self, pos: usize, tier: usize) -> (r: Result<(Expr, usize), CompileError>)
        requires
            pos <= self.tokens@.len(),
            tier <= 2,
        ensures
            expr_agrees(r, pos as int, self.tokens@.len() as int, p_operand(self.toks(), pos as int, tier as nat)),
        decreases self.tokens@.len() - pos, 10 - 3 * tier,
    {
        if tier < 2 {
            self.parse_tier(pos, tier + 1)
        } else {
            self.parse_unary(pos)
        }
    }

    fn parse_chain(&self, pos: usize, tier: usize, l: Expr) -> (r: Result<(Expr, usize), CompileError>)
        requires
            pos <= self.tokens@.len(),
            tier <= 2,
        ensures
            expr_agrees(r, pos as int, self.tokens@.len() as int, p_chain(self.toks(), pos as int, tier as nat, l@)),
        decreases self.tokens@.len() - pos, 10 - 3 * tier,
    {
        match self.op_at(pos, tier) {
            Some(op) => match self.parse_operand(pos + 1, tier) {
                Ok((r, q)) => {
                    let e = Expr::BinOp(Box::new(l), op, Box::new(r));
                    match self.parse_chain(q, tier, e) {
                        Ok((x, end)) => Ok((x, end)),
                        Err(x) => Err(x),
                    }
                },
                Err(x) => Err(x),
            },
            None => Ok((l, pos)),
        }
    }

    fn parse_unary(&self, pos: usize) -> (r: Result<(Expr, usize), CompileError>)
        requires
            pos <= self.tokens@.len(),
        ensures
            expr_agrees(r, pos as int, self.tokens@.len() as int, p_unary(self.toks(), pos as int)),
        decreases self.tokens@.len() - pos, 2int,
    {
        let plus = self.expect(pos, Token::Plus);
        if plus || self.expect(pos, Token::Minus) {
            let op = if plus {
                Op::Add
            } else {
                Op::Sub
            };
            match self.parse_primary(pos + 1) {
                Ok((e, end)) => Ok((Expr::UnaryOp(op, Box::new(e)), end)),
                Err(x) => Err(x),
            }
        } else {
            self.parse_primary(pos)
        }
    }

    fn parse_primary(&self, pos: usize) -> (r: Result<(Expr, usize), CompileError>)
        requires
            pos <= self.tokens@.len(),
        ensures
            expr_agrees(r, pos as int, self.tokens@.len() as int, p_primary(self.toks(), pos as int)),
        decreases self.tokens@.len() - pos, 1int,
    {
        if pos >= self.tokens.len() {
            return Err(CompileError::Syntax);
        }
        match &self.tokens[pos] {
            Token::Number(n) => Ok((Expr::Num(*n), pos + 1)),
            Token::Ident(x) => Ok((Expr::Ident(x.clone()), pos + 1)),
            Token::LParen => self.parse_paren(pos),
            _ => Err(CompileError::Syntax),
        }
    }

    fn parse_paren(&self, pos: usize) -> (r: Result<(Expr, usize), CompileError>)
        requires
            pos <= self.tokens@.len(),
        ensures
            expr_agrees(r, pos as int, self.tokens@.len() as int, p_paren(self.toks(), pos as int)),
        decreases self.tokens@.len() - pos, 0int,
    {
        if !self.expect(pos, Token::LParen) {
            return Err(CompileError::Syntax);
        }
        match self.parse_expr_at(pos + 1) {
            Ok((e, p)) => if self.expect(p, Token::RParen) {
                Ok((e, p + 1))
            } else {
                Err(CompileError::Syntax)
            },
            Err(x) => Err(x),
        }
    }

    fn parse_block(&self, pos: usize) -> (r: Result<(Vec<Stmt>, usize), CompileError>)
        requires
            pos <= self.tokens@.len(),
        ensures
            stmts_agrees(r, pos as int, self.tokens@.len() as int, p_block(self.toks(), pos as int)),
        decreases self.tokens@.len() - pos, 18int,
    {
        if !self.expect(pos, Token::LBrace) {
            return Err(CompileError::Syntax);
        }
        match self.parse_stmts(pos + 1) {
            Ok((b, p)) => if self.expect(p, Token::RBrace) {
                Ok((b, p + 1))
            } else {
                Err(CompileError::Syntax)
            },
            Err(x) => Err(x),
        }
    }

    fn parse_stmts(&self, pos: usize) -> (r: Result<(Vec<Stmt>, usize), CompileError>)
        requires
            pos <= self.tokens@.len(),
        ensures
            stmts_agrees(r, pos as int, self.tokens@.len() as int, p_stmts(self.toks(), pos as int, seq![])),
        decreases self.tokens@.len() - pos, 16int,
    {
        let ghost ts = self.toks();
        let mut out: Vec<Stmt> = Vec::new();
        let mut p = pos;
        let n = self.tokens.len();
        assert(stmts_model(out@) =~= seq![]);
        while p < n && !self.expect(p, Token::RBrace)
            invariant
                ts == self.toks(),
                n == self.tokens@.len(),
                ts.len() == n,
                pos <= p <= n,
                p_stmts(ts, pos as int, seq![]) == shifted_stmts(
                    p_stmts(ts, p as int, stmts_model(out@)),
                    (p - pos) as nat,
                ),
            decreases n - p,
        {
            match self.parse_stmt(p) {
                Ok((st, q)) => {
                    proof {
                        lemma_stmts_model_push(out@, st);
                    }
                    out.push(st);
                    p = q;
                },
                Err(x) => {
                    return Err(x);
                },
            }
        }
        Ok((out, p))
    }

    /// The statement whose keyword is at `at`.
    #[verifier::rlimit(40)]
    fn parse_stmt(&self, at: usize) -> (r: Result<(Stmt, usize), CompileError>)
        requires
            at < self.tokens@.len(),
        ensures
            stmt_agrees(r, at + 1, self.tokens@.len() as int, p_stmt(self.toks(), at + 1, self.toks()[at as int])),
        decreases self.tokens@.len() - at - 1, 22int,
    {
        let n = self.tokens.len();
        let pos = at + 1;
        if self.expect(at, Token::Let) {
            self.parse_let(pos)
        } else if self.expect(at, Token::Exit) {
            self.parse_exit(pos)
        } else if self.expect(at, Token::While) {
            self.parse_while(pos)
        } else if self.expect(at, Token::If) {
            self.parse_if(pos)
        } else {
            Err(CompileError::Syntax)
        }
    }

    fn parse_let(&self, pos: usize) -> (r: Result<(Stmt, usize), CompileError>)
        requires
            pos <= self.tokens@.len(),
        ensures
            stmt_agrees(r, pos as int, self.tokens@.len() as int, p_let(self.toks(), pos as int)),
        decreases self.tokens@.len() - pos, 20int,
    {
        if pos >= self.tokens.len() {
            return Err(CompileError::Syntax);
        }
        let name = match &self.tokens[pos] {
            Token::Ident(x) => x.clone(),
            _ => {
                return Err(CompileError::Syntax);
            },
        };
        if !self.expect(pos + 1, Token::Equal) {
            return Err(CompileError::Syntax);
        }
        match self.parse_expr_at(pos + 2) {
            Ok((e, p)) => if self.expect(p, Token::Semicolon) {
                Ok((Stmt::Let(name, e), p + 1))
            } else {
                Err(CompileError::Syntax)
            },
            Err(x) => Err(x),
        }
    }

    fn parse_exit(&self, pos: usize) -> (r: Result<(Stmt, usize), CompileError>)
        requires
            pos <= self.tokens@.len(),
        ensures
            stmt_agrees(r, pos as int, self.tokens@.len() as int, p_exit(self.toks(), pos as int)),
        decreases self.tokens@.len() - pos, 20int,
    {
        match self.parse_paren(pos) {
            Ok((e, p)) => if self.expect(p, Token::Semicolon) {
                Ok((Stmt::Exit(e), p + 1))
            } else {
                Err(CompileError::Syntax)
            },
            Err(x) => Err(x),
        }
    }

    fn parse_while(&self, pos: usize) -> (r: Result<(Stmt, usize), CompileError>)
        requires
            pos <= self.tokens@.len(),
        ensures
            stmt_agrees(r, pos as int, self.tokens@.len() as int, p_while(self.toks(), pos as int)),
        decreases self.tokens@.len() - pos, 20int,
    {
        match self.parse_paren(pos) {
            Ok((c, p)) => match self.parse_block(p) {
                Ok((b, q)) => Ok((Stmt::While(c, b), q)),
                Err(x) => Err(x),
            },
            Err(x) => Err(x),
        }
    }

    #[verifier::rlimit(40)]
    fn parse_if(&self, pos: usize) -> (r: Result<(Stmt, usize), CompileError>)
        requires
            pos <= self.tokens@.len(),
        ensures
            stmt_agrees(r, pos as int, self.tokens@.len() as int, p_if(self.toks(), pos as int)),
        decreases self.tokens@.len() - pos, 20int,
    {
        let (c, p) = match self.parse_paren(pos) {
            Ok(x) => x,
            Err(x) => {
                return Err(x);
            },
        };
        let (t, q) = match self.parse_block(p) {
            Ok(x) => x,
            Err(x) => {
                return Err(x);
            },
        };
        let (es, k) = match self.parse_elifs(q) {
            Ok(x) => x,
            Err(x) => {
                return Err(x);
            },
        };
        match self.parse_else(k) {
            Ok((eb, l)) => Ok((Stmt::If(c, t, es, eb), l)),
            Err(x) => Err(x),
        }
    }

    fn parse_elifs(&self, pos: usize) -> (r: Result<(Vec<(Expr, Vec<Stmt>)>, usize), CompileError>)
        requires
            pos <= self.tokens@.len(),
        ensures
            match r {
                Ok((es, end)) => pos <= end <= self.tokens@.len() && p_elifs(self.toks(), pos as int, seq![])
                    == Ok::<(Seq<(ExprModel, Seq<StmtModel>)>, nat), CompileError>(
                    (elifs_model(es@), (end - pos) as nat),
                ),
                Err(x) => p_elifs(self.toks(), pos as int, seq![]) == Err::<
                    (Seq<(ExprModel, Seq<StmtModel>)>, nat),
                    CompileError,
                >(x),
            },
        decreases self.tokens@.len() - pos, 17int,
    {
        let ghost ts = self.toks();
        let mut out: Vec<(Expr, Vec<Stmt>)> = Vec::new();
        let mut p = pos;
        let n = self.tokens.len();
        assert(elifs_model(out@) =~= seq![]);
        while self.expect(p, Token::Elif)
            invariant
                ts == self.toks(),
                n == self.tokens@.len(),
                pos <= p <= n,
                p_elifs(ts, pos as int, seq![]) == shifted_elifs(
                    p_elifs(ts, p as int, elifs_model(out@)),
                    (p - pos) as nat,
                ),
            decreases n - p,
        {
            let (c, q) = match self.parse_paren(p + 1) {
                Ok(x) => x,
                Err(x) => {
                    return Err(x);
                },
            };
            let (b, k) = match self.parse_block(q) {
                Ok(x) => x,
                Err(x) => {
                    return Err(x);
                },
            };
            proof {
                lemma_elifs_model_push(out@, (c, b));
            }
            out.push((c, b));
            p = k;
        }
        Ok((out, p))
    }

    fn parse_else(&self, pos: usize) -> (r: Result<(Option<Vec<Stmt>>, usize), CompileError>)
        requires
            pos <= self.tokens@.len(),
        ensures
            match r {
                Ok((eb, end)) => pos <= end <= self.tokens@.len() && p_else(self.toks(), pos as int)
                    == Ok::<(Option<Seq<StmtModel>>, nat), CompileError>(
                    (
                        match eb {
                            Some(b) => Some(stmts_model(b@)),
                            None => None,
                        },
                        (end - pos) as nat,
                    ),
                ),
                Err(x) => p_else(self.toks(), pos as int) == Err::<(Option<Seq<StmtModel>>, nat), CompileError>(x),
            },
        decreases self.tokens@.len() - pos, 17int,
    {
        if self.expect(pos, Token::Else) {
            match self.parse_block(pos + 1) {
                Ok((b, end)) => Ok((Some(b), end)),
                Err(x) => Err(x),
            }
        } else {
            Ok((None, pos))
        }
    }

    /// Parses the statements from the current position to the end of the
    /// tokens; a `}` that no block opened is a syntax error.
    pub fn parse(&mut self) -> (r: Result<Vec<Stmt>, CompileError>)
        requires
            old(self).wf(),
        ensures
            final(self).wf(),
            final(self).toks() == old(self).toks(),
            match r {
                Ok(ss) => final(self).position() == old(self).toks().len() && p_program(
                    old(self).toks(),
                    old(self).position(),
                ) == Ok::<Seq<StmtModel>, CompileError>(stmts_model(ss@)),
                Err(x) => p_program(old(self).toks(), old(self).position()) == Err::<
                    Seq<StmtModel>,
                    CompileError,
                >(x),
            },
    {
        match self.parse_stmts(self.pos) {
            Ok((ss, end)) => {
                if end < self.tokens.len() {
                    return Err(CompileError::Syntax);
                }
                self.pos = end;
                Ok(ss)
            },
            Err(x) => Err(x),
        }
    }

    /// Parses an expression at the current position and moves past it.
    pub fn parse_expr(&mut self) -> (r: Result<Expr, CompileError>)
        requires
            old(self).wf(),
        ensures
            final(self).wf(),
            final(self).toks() == old(self).toks(),
            match r {
                Ok(e) => p_expr(old(self).toks(), old(self).position()) == Ok::<(ExprModel, nat), CompileError>(
                    (e@, (final(self).position() - old(self).position()) as nat),
                ),
                Err(x) => p_expr(old(self).toks(), old(self).position()) == Err::<(ExprModel, nat), CompileError>(x),
            },
    {
        match self.parse_expr_at(self.pos) {
            Ok((e, end)) => {
                self.pos = end;
                Ok(e)
            },
            Err(x) => Err(x),
        }
    }
}

} // verus!
