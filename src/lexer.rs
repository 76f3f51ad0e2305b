//! The tokenizer: source text to a flat sequence of tokens.
use vstd::prelude::*;
use vstd::wrapping::i32_specs as w32;

use crate::CompileError;

verus! {

/// A lexical token.
#[derive(Debug, Clone, PartialEq)]
pub enum Token {
    Let,
    While,
    If,
    Elif,
    Else,
    Exit,
    Ident(String),
    Number(i32),
    Equal,
    Plus,
    Minus,
    Asterisk,
    Slash,
    LParen,
    RParen,
    LBrace,
    RBrace,
    Semicolon,
    EqualEqual,
    NotEqual,
    Greater,
    GreaterEqual,
    Less,
    LessEqual,
}

/// The model of a token: an identifier is its sequence of characters.
pub enum Tok {
    Let,
    While,
    If,
    Elif,
    Else,
    Exit,
    Ident(Seq<char>),
    Number(i32),
    Equal,
    Plus,
    Minus,
    Asterisk,
    Slash,
    LParen,
    RParen,
    LBrace,
    RBrace,
    Semicolon,
    EqualEqual,
    NotEqual,
    Greater,
    GreaterEqual,
    Less,
    LessEqual,
}

impl View for Token {
    type V = Tok;

    open spec fn view(&self) -> Tok {
        match self {
            Token::Let => Tok::Let,
            Token::While => Tok::While,
            Token::If => Tok::If,
            Token::Elif => Tok::Elif,
            Token::Else => Tok::Else,
            Token::Exit => Tok::Exit,
            Token::Ident(s) => Tok::Ident(s@),
            Token::Number(n) => Tok::Number(*n),
            Token::Equal => Tok::Equal,
            Token::Plus => Tok::Plus,
            Token::Minus => Tok::Minus,
            Token::Asterisk => Tok::Asterisk,
            Token::Slash => Tok::Slash,
            Token::LParen => Tok::LParen,
            Token::RParen => Tok::RParen,
            Token::LBrace => Tok::LBrace,
            Token::RBrace => Tok::RBrace,
            Token::Semicolon => Tok::Semicolon,
            Token::EqualEqual => Tok::EqualEqual,
            Token::NotEqual => Tok::NotEqual,
            Token::Greater => Tok::Greater,
            Token::GreaterEqual => Tok::GreaterEqual,
            Token::Less => Tok::Less,
            Token::LessEqual => Tok::LessEqual,
        }
    }
}

/// The models of a sequence of tokens.
pub open spec fn toks_of(ts: Seq<Token>) -> Seq<Tok> {
    ts.map_values(|t: Token| t@)
}

pub open spec fn is_alpha(c: char) -> bool {
    ('a' <= c && c <= 'z') || ('A' <= c && c <= 'Z')
}

pub open spec fn is_digit(c: char) -> bool {
    '0' <= c && c <= '9'
}

/// A character that may continue an identifier or keyword.
pub open spec fn is_word(c: char) -> bool {
    is_alpha(c) || is_digit(c) || c == '_'
}

/// The number of word characters that start at `i`.
pub open spec fn word_len(cs: Seq<char>, i: int) -> nat
    decreases cs.len() - i,
{
    if 0 <= i < cs.len() && is_word(cs[i]) {
        1 + word_len(cs, i + 1)
    } else {
        0
    }
}

/// The number of decimal digits that start at `i`.
pub open spec fn digit_len(cs: Seq<char>, i: int) -> nat
    decreases cs.len() - i,
{
    if 0 <= i < cs.len() && is_digit(cs[i]) {
        1 + digit_len(cs, i + 1)
    } else {
        0
    }
}

/// The value of a run of digits, accumulated in 32-bit two's complement
/// (a value that does not fit wraps around).
pub open spec fn digits_value(ds: Seq<char>) -> i32
    decreases ds.len(),
{
    if ds.len() == 0 {
        0
    } else {
        w32::wrapping_add(
            w32::wrapping_mul(digits_value(ds.drop_last()), 10),
            (ds.last() as int - '0' as int) as i32,
        )
    }
}

/// A word is a keyword when it is one, else an identifier.
pub open spec fn word_token(w: Seq<char>) -> Tok {
    if w == "let"@ {
        Tok::Let
    } else if w == "exit"@ {
        Tok::Exit
    } else if w == "while"@ {
        Tok::While
    } else if w == "if"@ {
        Tok::If
    } else if w == "elif"@ {
        Tok::Elif
    } else if w == "else"@ {
        Tok::Else
    } else {
        Tok::Ident(w)
    }
}

/// The token of a character that is a token by itself.
pub open spec fn single_token(c: char) -> Option<Tok> {
    if c == '+' {
        Some(Tok::Plus)
    } else if c == '-' {
        Some(Tok::Minus)
    } else if c == '*' {
        Some(Tok::Asterisk)
    } else if c == '/' {
        Some(Tok::Slash)
    } else if c == '(' {
        Some(Tok::LParen)
    } else if c == ')' {
        Some(Tok::RParen)
    } else if c == '{' {
        Some(Tok::LBrace)
    } else if c == '}' {
        Some(Tok::RBrace)
    } else if c == ';' {
        Some(Tok::Semicolon)
    } else {
        None
    }
}

/// Puts `prefix` in front of a successful result.
pub open spec fn prefixed(prefix: Seq<Tok>, r: Result<Seq<Tok>, CompileError>) -> Result<
    Seq<Tok>,
    CompileError,
> {
    match r {
        Ok(ts) => Ok(prefix + ts),
        Err(e) => Err(e),
    }
}

/// Whether the character at `i` exists and is `c`.
pub open spec fn char_at(cs: Seq<char>, i: int, c: char) -> bool {
    0 <= i < cs.len() && cs[i] == c
}

/// The tokens of `cs` from index `i` on.
///
/// Letters start a maximal word, digits a maximal number; `==`, `>=`, `<=`
/// and `!=` are read as one token; a `!` without `=` fails; whitespace and
/// every character that starts no token are skipped.
#[verifier::opaque]
pub open spec fn lex_from(cs: Seq<char>, i: int) -> Result<Seq<Tok>, CompileError>
    decreases cs.len() - i,
    via lex_from_decreases
{
    if i < 0 || i >= cs.len() {
        Ok(seq![])
    } else {
        let c = cs[i];
        if is_alpha(c) {
            let j = i + 1 + word_len(cs, i + 1);
            prefixed(seq![word_token(cs.subrange(i, j))], lex_from(cs, j))
        } else if is_digit(c) {
            let j = i + 1 + digit_len(cs, i + 1);
            prefixed(seq![Tok::Number(digits_value(cs.subrange(i, j)))], lex_from(cs, j))
        } else if c == '=' {
            if char_at(cs, i + 1, '=') {
                prefixed(seq![Tok::EqualEqual], lex_from(cs, i + 2))
            } else {
                prefixed(seq![Tok::Equal], lex_from(cs, i + 1))
            }
        } else if c == '>' {
            if char_at(cs, i + 1, '=') {
                prefixed(seq![Tok::GreaterEqual], lex_from(cs, i + 2))
            } else {
                prefixed(seq![Tok::Greater], lex_from(cs, i + 1))
            }
        } else if c == '<' {
            if char_at(cs, i + 1, '=') {
                prefixed(seq![Tok::LessEqual], lex_from(cs, i + 2))
            } else {
                prefixed(seq![Tok::Less], lex_from(cs, i + 1))
            }
        } else if c == '!' {
            if char_at(cs, i + 1, '=') {
                prefixed(seq![Tok::NotEqual], lex_from(cs, i + 2))
            } else {
                Err(CompileError::Lexical)
            }
        } else {
            match single_token(c) {
                Some(t) => prefixed(seq![t], lex_from(cs, i + 1)),
                None => lex_from(cs, i + 1),
            }
        }
    }
}

/// The tokens of a whole source text.
pub open spec fn lex(cs: Seq<char>) -> Result<Seq<Tok>, CompileError> {
    lex_from(cs, 0)
}

pub proof fn lemma_word_len_bound(cs: Seq<char>, i: int)
    requires
        0 <= i <= cs.len(),
    ensures
        i + word_len(cs, i) <= cs.len(),
    decreases cs.len() - i,
{
    if i < cs.len() && is_word(cs[i]) {
        lemma_word_len_bound(cs, i + 1);
    }
}

pub proof fn lemma_digit_len_bound(cs: Seq<char>, i: int)
    requires
        0 <= i <= cs.len(),
    ensures
        i + digit_len(cs, i) <= cs.len(),
    decreases cs.len() - i,
{
    if i < cs.len() && is_digit(cs[i]) {
        lemma_digit_len_bound(cs, i + 1);
    }
}

#[via_fn]
proof fn lex_from_decreases(cs: Seq<char>, i: int) {
    if 0 <= i < cs.len() {
        lemma_word_len_bound(cs, i + 1);
        lemma_digit_len_bound(cs, i + 1);
    }
}

fn alpha(c: char) -> (b: bool)
    ensures
        b == is_alpha(c),
{
    ('a' <= c && c <= 'z') || ('A' <= c && c <= 'Z')
}

fn digit(c: char) -> (b: bool)
    ensures
        b == is_digit(c),
{
    '0' <= c && c <= '9'
}

fn word_char(c: char) -> (b: bool)
    ensures
        b == is_word(c),
{
    alpha(c) || digit(c) || c == '_'
}

fn single(c: char) -> (r: Option<Token>)
    ensures
        match r {
            Some(t) => single_token(c) == Some(t@),
            None => single_token(c) is None,
        },
{
    if c == '+' {
        Some(Token::Plus)
    } else if c == '-' {
        Some(Token::Minus)
    } else if c == '*' {
        Some(Token::Asterisk)
    } else if c == '/' {
        Some(Token::Slash)
    } else if c == '(' {
        Some(Token::LParen)
    } else if c == ')' {
        Some(Token::RParen)
    } else if c == '{' {
        Some(Token::LBrace)
    } else if c == '}' {
        Some(Token::RBrace)
    } else if c == ';' {
        Some(Token::Semicolon)
    } else {
        None
    }
}

proof fn lemma_push_tok(prev: Seq<Token>, t: Token, r: Result<Seq<Tok>, CompileError>)
    ensures
        prefixed(toks_of(prev), prefixed(seq![t@], r)) == prefixed(toks_of(prev.push(t)), r),
{
    assert(toks_of(prev.push(t)) =~= toks_of(prev).push(t@));
    if let Ok(ts) = r {
        assert(toks_of(prev) + (seq![t@] + ts) =~= toks_of(prev).push(t@) + ts);
    }
}

/// A tokenizer over one source text.
pub struct Lexer {
    source: String,
    chars: Vec<char>,
    pos: usize,
}

impl Lexer {
    /// The characters of the source text.
    pub closed spec fn input(&self) -> Seq<char> {
        self.chars@
    }

    /// The index of the next character to read.
    pub closed spec fn position(&self) -> int {
        self.pos as int
    }

    pub closed spec fn wf(&self) -> bool {
        &&& self.source@ == self.chars@
        &&& self.pos <= self.chars@.len()
    }

    /// A tokenizer at the start of `input`.
    pub fn new(input: &str) -> (r: Lexer)
        ensures
            r.wf(),
            r.input() == input@,
            r.position() == 0,
    {
        let n = input.unicode_len();
        let mut chars: Vec<char> = Vec::new();
        let mut i: usize = 0;
        while i < n
            invariant
                n == input@.len(),
                i <= n,
                chars@ == input@.subrange(0, i as int),
            decreases n - i,
        {
            chars.push(input.get_char(i));
            i = i + 1;
            assert(chars@ =~= input@.subrange(0, i as int));
        }
        assert(chars@ =~= input@);
        Lexer { source: input.to_owned(), chars, pos: 0 }
    }

    /// Whether the characters in `[start, end)` spell `kw`.
    fn word_is(&self, start: usize, end: usize, kw: &str) -> (b: bool)
        requires
            start <= end <= self.chars@.len(),
        ensures
            b == (self.chars@.subrange(start as int, end as int) == kw@),
    {
        let ghost w = self.chars@.subrange(start as int, end as int);
        let k = kw.unicode_len();
        if end - start != k {
            assert(w.len() != kw@.len());
            return false;
        }
        let mut i: usize = 0;
        while i < k
            invariant
                k == kw@.len(),
                k == end - start,
                start <= end <= self.chars@.len(),
                i <= k,
                w == self.chars@.subrange(start as int, end as int),
                forall|j: int| 0 <= j < i ==> self.chars@[start + j] == kw@[j],
            decreases k - i,
        {
            if self.chars[start + i] != kw.get_char(i) {
                assert(w[i as int] != kw@[i as int]);
                return false;
            }
            i = i + 1;
        }
        assert(w =~= kw@);
        true
    }

    /// The token of the word in `[start, end)`.
    fn word(&self, start: usize, end: usize) -> (t: Token)
        requires
            self.wf(),
            start <= end <= self.chars@.len(),
        ensures
            t@ == word_token(self.chars@.subrange(start as int, end as int)),
    {
        if self.word_is(start, end, "let") {
            Token::Let
        } else if self.word_is(start, end, "exit") {
            Token::Exit
        } else if self.word_is(start, end, "while") {
            Token::While
        } else if self.word_is(start, end, "if") {
            Token::If
        } else if self.word_is(start, end, "elif") {
            Token::Elif
        } else if self.word_is(start, end, "else") {
            Token::Else
        } else {
            Token::Ident(self.source.as_str().substring_char(start, end).to_owned())
        }
    }

    /// The end of the word that starts at `i`.
    fn word_end(&self, i: usize) -> (j: usize)
        requires
            i < self.chars@.len(),
        ensures
            j == i + 1 + word_len(self.chars@, i + 1),
            j <= self.chars@.len(),
    {
        let ghost cs = self.chars@;
        let n = self.chars.len();
        let mut j: usize = i + 1;
        while j < n && word_char(self.chars[j])
            invariant
                self.chars@ == cs,
                n == cs.len(),
                i < j <= n,
                word_len(cs, i + 1) == (j - (i + 1)) + word_len(cs, j as int),
            decreases n - j,
        {
            j = j + 1;
        }
        j
    }

    /// The end and the value of the number that starts at `i`.
    fn number_at(&self, i: usize) -> (r: (usize, i32))
        requires
            i < self.chars@.len(),
            is_digit(self.chars@[i as int]),
        ensures
            r.0 == i + 1 + digit_len(self.chars@, i + 1),
            r.0 <= self.chars@.len(),
            r.1 == digits_value(self.chars@.subrange(i as int, r.0 as int)),
    {
        let ghost cs = self.chars@;
        let n = self.chars.len();
        let mut j: usize = i;
        let mut value: i32 = 0;
        assert(cs.subrange(i as int, i as int) =~= seq![]);
        while j < n && digit(self.chars[j])
            invariant
                self.chars@ == cs,
                n == cs.len(),
                i < n,
                i <= j <= n,
                is_digit(cs[i as int]),
                digit_len(cs, i as int) == (j - i) + digit_len(cs, j as int),
                value == digits_value(cs.subrange(i as int, j as int)),
            decreases n - j,
        {
            let d = self.chars[j];
            let dv: i32 = (d as u32 - '0' as u32) as i32;
            assert(cs.subrange(i as int, j + 1).drop_last() =~= cs.subrange(i as int, j as int));
            value = value.wrapping_mul(10).wrapping_add(dv);
            j = j + 1;
        }
        assert(digit_len(cs, i as int) == 1 + digit_len(cs, i + 1));
        (j, value)
    }

    /// One step of the scan at `i`: the token that starts there, if any,
    /// and where the scan goes on.
    fn step(&self, i: usize) -> (r: Result<(Option<Token>, usize), CompileError>)
        requires
            self.wf(),
            i < self.chars@.len(),
        ensures
            match r {
                Ok((Some(t), j)) => i < j <= self.chars@.len() && lex_from(self.chars@, i as int)
                    == prefixed(seq![t@], lex_from(self.chars@, j as int)),
                Ok((None, j)) => i < j <= self.chars@.len() && lex_from(self.chars@, i as int)
                    == lex_from(self.chars@, j as int),
                Err(e) => lex_from(self.chars@, i as int) == Err::<Seq<Tok>, CompileError>(e),
            },
    {
        reveal(lex_from);
        let n = self.chars.len();
        let c = self.chars[i];
        if alpha(c) {
            let j = self.word_end(i);
            Ok((Some(self.word(i, j)), j))
        } else if digit(c) {
            let (j, value) = self.number_at(i);
            Ok((Some(Token::Number(value)), j))
        } else if c == '=' || c == '>' || c == '<' || c == '!' {
            let follows = i + 1 < n && self.chars[i + 1] == '=';
            let t = if c == '=' {
                if follows {
                    Token::EqualEqual
                } else {
                    Token::Equal
                }
            } else if c == '>' {
                if follows {
                    Token::GreaterEqual
                } else {
                    Token::Greater
                }
            } else if c == '<' {
                if follows {
                    Token::LessEqual
                } else {
                    Token::Less
                }
            } else {
                if follows {
                    Token::NotEqual
                } else {
                    return Err(CompileError::Lexical);
                }
            };
            if follows {
                Ok((Some(t), i + 2))
            } else {
                Ok((Some(t), i + 1))
            }
        } else {
            Ok((single(c), i + 1))
        }
    }

    /// The tokens of the input from `start` on.
    fn scan_from(&self, start: usize) -> (r: Result<Vec<Token>, CompileError>)
        requires
            self.wf(),
            start <= self.chars@.len(),
        ensures
            match r {
                Ok(ts) => lex_from(self.chars@, start as int) == Ok::<Seq<Tok>, CompileError>(
                    toks_of(ts@),
                ),
                Err(e) => lex_from(self.chars@, start as int) == Err::<Seq<Tok>, CompileError>(e),
            },
    {
        let ghost cs = self.chars@;
        let mut tokens: Vec<Token> = Vec::new();
        let n = self.chars.len();
        let mut pos = start;
        assert(toks_of(tokens@) =~= seq![]);
        assert(prefixed(seq![], lex_from(cs, start as int)) == lex_from(cs, start as int)) by {
            if let Ok(ts) = lex_from(cs, start as int) {
                assert(seq![] + ts =~= ts);
            }
        }
        while pos < n
            invariant
                self.wf(),
                n == cs.len(),
                cs == self.chars@,
                pos <= n,
                lex_from(cs, start as int) == prefixed(toks_of(tokens@), lex_from(cs, pos as int)),
            decreases n - pos,
        {
            let st = self.step(pos);
            match st {
                Ok((Some(t), j)) => {
                    proof {
                        lemma_push_tok(tokens@, t, lex_from(cs, j as int));
                    }
                    tokens.push(t);
                    pos = j;
                },
                Ok((None, j)) => {
                    pos = j;
                },
                Err(e) => {
                    return Err(e);
                },
            }
        }
        assert(lex_from(cs, n as int) == Ok::<Seq<Tok>, CompileError>(seq![])) by {
            reveal(lex_from);
        }
        assert(toks_of(tokens@) + seq![] =~= toks_of(tokens@));
        Ok(tokens)
    }

    /// Reads the whole remaining input into tokens.
    pub fn tokenize(&mut self) -> (r: Result<Vec<Token>, CompileError>)
        requires
            old(self).wf(),
        ensures
            final(self).wf(),
            final(self).input() == old(self).input(),
            match r {
                Ok(ts) => final(self).position() == old(self).input().len() && lex_from(
                    old(self).input(),
                    old(self).position(),
                ) == Ok::<Seq<Tok>, CompileError>(toks_of(ts@)),
                Err(e) => lex_from(old(self).input(), old(self).position()) == Err::<
                    Seq<Tok>,
                    CompileError,
                >(e),
            },
    {
        let r = self.scan_from(self.pos);
        if r.is_ok() {
            self.pos = self.chars.len();
        }
        r
    }
}

} // verus!
