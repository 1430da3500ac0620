//! The lexer: source text to a flat sequence of positioned tokens.

use crate::text::{
    all_digits, chars_of, digits_value, float_literal, i64_literal, is_digit, is_float_literal,
    lemma_digits_nonneg, parse_i64, push_char, string_from_chars,
};
use vstd::prelude::*;
use vstd::string::StringExecFns;

verus! {

/// A failure to lex: a message and the line and column where it happened.
#[derive(Debug)]
pub struct TokeniserError {
    pub message: String,
    pub line_no: usize,
    pub col_no: usize,
}

impl TokeniserError {
    pub fn new(tokeniser_state: &TokeniserState, message: String) -> (r: Self)
        ensures
            r.message == message,
            r.line_no == tokeniser_state.line_no,
            r.col_no == tokeniser_state.col_no,
    {
        Self { message, line_no: tokeniser_state.line_no, col_no: tokeniser_state.col_no }
    }

    pub fn get_message(&self) -> (r: &String)
        ensures
            r == self.message,
    {
        &self.message
    }

    pub fn get_line_no(&self) -> (r: usize)
        ensures
            r == self.line_no,
    {
        self.line_no
    }

    pub fn get_col_no(&self) -> (r: usize)
        ensures
            r == self.col_no,
    {
        self.col_no
    }

    pub open spec fn line(&self) -> nat {
        self.line_no as nat
    }

    pub open spec fn col(&self) -> nat {
        self.col_no as nat
    }
}

/// What a token is. A float literal keeps the text it was written as; its
/// value is whatever `f64` makes of that text.
#[derive(Debug, PartialEq)]
pub enum TokenType {
    Identifier(String),
    LBracket,
    RBracket,
    Integer(i64),
    Float(String),
    String(String),
}

/// The mathematical form of a token's kind: texts as character sequences.
pub enum TokenKind {
    Identifier(Seq<char>),
    LBracket,
    RBracket,
    Integer(i64),
    Float(Seq<char>),
    String(Seq<char>),
}

impl View for TokenType {
    type V = TokenKind;

    open spec fn view(&self) -> TokenKind {
        match self {
            TokenType::Identifier(s) => TokenKind::Identifier(s@),
            TokenType::LBracket => TokenKind::LBracket,
            TokenType::RBracket => TokenKind::RBracket,
            TokenType::Integer(i) => TokenKind::Integer(*i),
            TokenType::Float(s) => TokenKind::Float(s@),
            TokenType::String(s) => TokenKind::String(s@),
        }
    }
}

impl Clone for TokenType {
    fn clone(&self) -> (r: Self)
        ensures
            r == *self,
    {
        match self {
            TokenType::Identifier(s) => TokenType::Identifier(s.clone()),
            TokenType::LBracket => TokenType::LBracket,
            TokenType::RBracket => TokenType::RBracket,
            TokenType::Integer(i) => TokenType::Integer(*i),
            TokenType::Float(s) => TokenType::Float(s.clone()),
            TokenType::String(s) => TokenType::String(s.clone()),
        }
    }
}

/// A token with the line and column where it starts.
#[derive(Debug)]
pub struct Token {
    pub token_type: TokenType,
    pub line_no: usize,
    pub col_no: usize,
}

pub struct TokenView {
    pub kind: TokenKind,
    pub line: nat,
    pub col: nat,
}

impl View for Token {
    type V = TokenView;

    open spec fn view(&self) -> TokenView {
        TokenView { kind: self.token_type@, line: self.line_no as nat, col: self.col_no as nat }
    }
}

impl Clone for Token {
    fn clone(&self) -> (r: Self)
        ensures
            r == *self,
    {
        Token { token_type: self.token_type.clone(), line_no: self.line_no, col_no: self.col_no }
    }
}

impl Token {
    pub fn new(token_type: TokenType, line_no: usize, col_no: usize) -> (r: Self)
        ensures
            r.token_type == token_type,
            r.line_no == line_no,
            r.col_no == col_no,
    {
        Self { token_type, line_no, col_no }
    }

    pub fn get_token_type(&self) -> (r: &TokenType)
        ensures
            r == self.token_type,
    {
        &self.token_type
    }

    pub open spec fn kind(&self) -> TokenType {
        self.token_type
    }

    pub fn get_line_no(&self) -> (r: usize)
        ensures
            r == self.line_no,
    {
        self.line_no
    }

    pub fn get_col_no(&self) -> (r: usize)
        ensures
            r == self.col_no,
    {
        self.col_no
    }
}

// ---------------------------------------------------------------------------
// The lexer as a state machine over characters.

/// The state of the lexer between two characters.
pub struct LexState {
    pub tokens: Seq<TokenView>,
    pub buf: Seq<char>,
    pub line: nat,
    pub col: nat,
}

pub enum LexMode {
    Normal,
    InString,
    Escape,
    Comment,
}

/// The kind of a bare word: an integer if `i64` reads it, else a float if
/// `f64` reads it, else an identifier.
pub open spec fn classify(buf: Seq<char>) -> TokenKind {
    match i64_literal(buf) {
        Some(i) => TokenKind::Integer(i),
        None => if float_literal(buf) {
            TokenKind::Float(buf)
        } else {
            TokenKind::Identifier(buf)
        },
    }
}

/// The column where a token of `len` characters that ends before `col` starts.
pub open spec fn start_col(col: nat, len: nat) -> nat {
    if col >= len {
        (col - len) as nat
    } else {
        0
    }
}

pub open spec fn emit(st: LexState, kind: TokenKind, len: nat) -> LexState {
    LexState {
        tokens: st.tokens.push(TokenView { kind, line: st.line, col: start_col(st.col, len) }),
        buf: Seq::empty(),
        ..st
    }
}

/// Ends the pending bare word, if there is one.
pub open spec fn flush(st: LexState) -> LexState {
    if st.buf.len() == 0 {
        st
    } else {
        emit(st, classify(st.buf), st.buf.len())
    }
}

/// The character that an escape letter stands for.
pub open spec fn escape_char(c: char) -> Option<char> {
    if c == 'a' {
        Some('\x07')
    } else if c == 'b' {
        Some('\x08')
    } else if c == 'e' {
        Some('\x1b')
    } else if c == 'f' {
        Some('\x0c')
    } else if c == 'n' {
        Some('\n')
    } else if c == 'r' {
        Some('\r')
    } else if c == 't' {
        Some('\t')
    } else if c == 'v' {
        Some('\x0b')
    } else if c == '\\' || c == '\'' || c == '"' {
        Some(c)
    } else {
        None
    }
}

pub open spec fn is_blank(c: char) -> bool {
    c == ' ' || c == '\t' || c == '\r' || c == '\n'
}

/// What one character does to the state, before the position moves on;
/// `None` for a bad escape.
pub open spec fn react(st: LexState, mode: LexMode, c: char) -> Option<(LexState, LexMode)> {
    match mode {
        LexMode::Normal => if c == '(' {
            Some((emit(flush(st), TokenKind::LBracket, 1), LexMode::Normal))
        } else if c == ')' {
            Some((emit(flush(st), TokenKind::RBracket, 1), LexMode::Normal))
        } else if is_blank(c) {
            Some((flush(st), LexMode::Normal))
        } else if c == '"' {
            Some((flush(st), LexMode::InString))
        } else if c == ';' {
            Some((flush(st), LexMode::Comment))
        } else {
            Some((LexState { buf: st.buf.push(c), ..st }, LexMode::Normal))
        },
        LexMode::InString => if c == '"' {
            Some((emit(st, TokenKind::String(st.buf), st.buf.len()), LexMode::Normal))
        } else if c == '\\' {
            Some((st, LexMode::Escape))
        } else {
            Some((LexState { buf: st.buf.push(c), ..st }, LexMode::InString))
        },
        LexMode::Escape => match escape_char(c) {
            Some(e) => Some((LexState { buf: st.buf.push(e), ..st }, LexMode::InString)),
            None => None,
        },
        LexMode::Comment => if c == '\n' {
            Some((st, LexMode::Normal))
        } else {
            Some((st, LexMode::Comment))
        },
    }
}

/// The position moves past `c`.
pub open spec fn advance(st: LexState, c: char) -> LexState {
    if c == '\n' {
        LexState { line: st.line + 1, col: 1, ..st }
    } else {
        LexState { col: st.col + 1, ..st }
    }
}

pub open spec fn initial() -> LexState {
    LexState { tokens: Seq::empty(), buf: Seq::empty(), line: 1, col: 1 }
}

/// The lexer after reading `cs`: its state and mode, or the line and column
/// of a bad escape.
pub open spec fn run(cs: Seq<char>) -> Result<(LexState, LexMode), (nat, nat)>
    decreases cs.len(),
{
    if cs.len() == 0 {
        Ok((initial(), LexMode::Normal))
    } else {
        match run(cs.drop_last()) {
            Ok((st, mode)) => match react(st, mode, cs.last()) {
                Some((st2, mode2)) => Ok((advance(st2, cs.last()), mode2)),
                None => Err((st.line, st.col)),
            },
            Err(e) => Err(e),
        }
    }
}

/// Once a bad escape is met, the rest of the source changes nothing.
proof fn lemma_run_error_stays(cs: Seq<char>, i: int)
    requires
        0 <= i <= cs.len(),
        run(cs.subrange(0, i)) is Err,
    ensures
        run(cs) == run(cs.subrange(0, i)),
    decreases cs.len() - i,
{
    if i < cs.len() {
        let p = cs.subrange(0, i + 1);
        assert(p.drop_last() =~= cs.subrange(0, i));
        lemma_run_error_stays(cs, i + 1);
    } else {
        assert(cs.subrange(0, i) =~= cs);
    }
}

/// A character that ends or starts something other than a bare word.
pub open spec fn is_delimiter(c: char) -> bool {
    c == '(' || c == ')' || is_blank(c) || c == '"' || c == ';'
}

proof fn lemma_bare_word_run(cs: Seq<char>)
    requires
        forall|i: int| 0 <= i < cs.len() ==> !is_delimiter(#[trigger] cs[i]),
    ensures
        run(cs) == Ok::<(LexState, LexMode), (nat, nat)>(
            (LexState { tokens: Seq::empty(), buf: cs, line: 1, col: 1 + cs.len() }, LexMode::Normal),
        ),
    decreases cs.len(),
{
    if cs.len() > 0 {
        let d = cs.drop_last();
        assert forall|i: int| 0 <= i < d.len() implies !is_delimiter(#[trigger] d[i]) by {
            assert(d[i] == cs[i]);
        }
        lemma_bare_word_run(d);
        assert(!is_delimiter(cs[cs.len() - 1]));
        assert(d.push(cs.last()) =~= cs);
    } else {
        assert(cs =~= Seq::<char>::empty());
    }
}

/// Text without brackets, blanks, quotes or comment marks is one token:
/// an integer if `i64` reads it, else a float if `f64` reads it, else an
/// identifier.
pub proof fn law_bare_word_is_one_token(cs: Seq<char>)
    requires
        cs.len() > 0,
        forall|i: int| 0 <= i < cs.len() ==> !is_delimiter(#[trigger] cs[i]),
    ensures
        lex(cs) == Ok::<Seq<TokenView>, (nat, nat)>(seq![TokenView { kind: classify(cs), line: 1, col: 1 }]),
{
    lemma_bare_word_run(cs);
    let st = LexState { tokens: Seq::empty(), buf: cs, line: 1, col: 1 + cs.len() };
    assert(flush(st).tokens =~= seq![TokenView { kind: classify(cs), line: 1, col: 1 }]);
}

/// A minus sign followed by digits is a single negative integer, not an
/// identifier followed by a number.
pub proof fn law_negative_integer_is_one_token(digits: Seq<char>)
    requires
        digits.len() > 0,
        all_digits(digits),
        digits_value(digits) <= i64::MAX,
    ensures
        lex(seq!['-'] + digits) == Ok::<Seq<TokenView>, (nat, nat)>(
            seq![TokenView { kind: TokenKind::Integer((-digits_value(digits)) as i64), line: 1, col: 1 }],
        ),
{
    let cs = seq!['-'] + digits;
    assert forall|i: int| 0 <= i < cs.len() implies !is_delimiter(#[trigger] cs[i]) by {
        if i > 0 {
            assert(cs[i] == digits[i - 1]);
            assert(is_digit(digits[i - 1]));
        }
    }
    law_bare_word_is_one_token(cs);
    assert(cs.drop_first() =~= digits);
    lemma_digits_nonneg(digits);
}

/// A backslash followed by a letter outside the escape set fails at the
/// letter's position, whatever follows.
pub proof fn law_bad_escape_fails(c: char, rest: Seq<char>)
    requires
        escape_char(c) is None,
    ensures
        lex(seq!['"', '\\', c] + rest) == Err::<Seq<TokenView>, (nat, nat)>((1nat, 3nat)),
{
    let cs = seq!['"', '\\', c] + rest;
    let p = seq!['"', '\\', c];
    assert(cs.subrange(0, 3) =~= p);
    assert(p.drop_last() =~= seq!['"', '\\']);
    assert(p.drop_last().drop_last() =~= seq!['"']);
    assert(p.drop_last().drop_last().drop_last() =~= Seq::<char>::empty());
    assert(seq!['"'].drop_last() =~= Seq::<char>::empty());
    assert(run(Seq::<char>::empty()) == Ok::<(LexState, LexMode), (nat, nat)>((initial(), LexMode::Normal)));
    assert(flush(initial()) == initial());
    let s1 = run(seq!['"']);
    assert(s1 is Ok && s1->Ok_0.1 == LexMode::InString && s1->Ok_0.0.line == 1 && s1->Ok_0.0.col == 2);
    let s2 = run(seq!['"', '\\']);
    assert(seq!['"', '\\'].drop_last() =~= seq!['"']);
    assert(s2 is Ok && s2->Ok_0.1 == LexMode::Escape && s2->Ok_0.0.line == 1 && s2->Ok_0.0.col == 3);
    assert(run(p) == Err::<(LexState, LexMode), (nat, nat)>((1nat, 3nat)));
    lemma_run_error_stays(cs, 3);
}

/// The tokens of a whole source, or the position of its first bad escape.
pub open spec fn lex(cs: Seq<char>) -> Result<Seq<TokenView>, (nat, nat)> {
    match run(cs) {
        Ok((st, _)) => Ok(flush(st).tokens),
        Err(e) => Err(e),
    }
}

// ---------------------------------------------------------------------------

/// The lexer's working state: tokens so far, the pending word, the position.
pub struct TokeniserState {
    pub output: Vec<Token>,
    pub current_token: Vec<char>,
    pub line_no: usize,
    pub col_no: usize,
}

impl View for TokeniserState {
    type V = LexState;

    open spec fn view(&self) -> LexState {
        LexState {
            tokens: self.output@.map_values(|t: Token| t@),
            buf: self.current_token@,
            line: self.line_no as nat,
            col: self.col_no as nat,
        }
    }
}

impl TokeniserState {
    pub fn new() -> (r: Self)
        ensures
            r@ == initial(),
    {
        let r = Self { output: Vec::new(), current_token: Vec::new(), line_no: 1, col_no: 1 };
        assert(r@.tokens =~= Seq::<TokenView>::empty());
        r
    }

    /// Emits a token of `token_length` characters that ends at the current column.
    pub fn push_token(&mut self, token_type: TokenType, token_length: usize)
        ensures
            final(self)@ == emit(old(self)@, token_type@, token_length as nat),
    {
        let col_no = self.col_no.saturating_sub(token_length);
        let ghost before = self@;
        self.output.push(Token::new(token_type, self.line_no, col_no));
        self.current_token.clear();
        assert(self@.tokens =~= emit(before, token_type@, token_length as nat).tokens);
        assert(self@.buf =~= Seq::<char>::empty());
    }

    /// Ends the pending bare word, if there is one, as an integer, a float or
    /// an identifier.
    pub fn try_push_token(&mut self)
        ensures
            final(self)@ == flush(old(self)@),
    {
        if self.current_token.len() == 0 {
            return;
        }
        let len = self.current_token.len();
        if let Some(integer) = parse_i64(self.current_token.as_slice()) {
            self.push_token(TokenType::Integer(integer), len);
        } else if is_float_literal(self.current_token.as_slice()) {
            let text = string_from_chars(self.current_token.as_slice());
            self.push_token(TokenType::Float(text), len);
        } else {
            let text = string_from_chars(self.current_token.as_slice());
            self.push_token(TokenType::Identifier(text), len);
        }
    }

    pub fn get_tokens(self) -> (r: Vec<Token>)
        ensures
            r@.map_values(|t: Token| t@) == self@.tokens,
    {
        self.output
    }
}

fn escape_of(c: char) -> (r: Option<char>)
    ensures
        r == escape_char(c),
{
    if c == 'a' {
        Some('\x07')
    } else if c == 'b' {
        Some('\x08')
    } else if c == 'e' {
        Some('\x1b')
    } else if c == 'f' {
        Some('\x0c')
    } else if c == 'n' {
        Some('\n')
    } else if c == 'r' {
        Some('\r')
    } else if c == 't' {
        Some('\t')
    } else if c == 'v' {
        Some('\x0b')
    } else if c == '\\' || c == '\'' || c == '"' {
        Some(c)
    } else {
        None
    }
}

/// Splits source text into tokens.
pub fn tokenise(source: &str) -> (r: Result<Vec<Token>, TokeniserError>)
    requires
        source@.len() < usize::MAX,
    ensures
        match lex(source@) {
            Ok(tokens) => r is Ok && r->Ok_0@.map_values(|t: Token| t@) == tokens,
            Err((line, col)) => r is Err && r->Err_0.line() == line && r->Err_0.col() == col,
        },
{
    let cs = chars_of(source);
    let mut state = TokeniserState::new();
    let mut mode = LexMode::Normal;
    let mut i: usize = 0;
    while i < cs.len()
        invariant
            cs@ == source@,
            i <= cs@.len(),
            cs@.len() < usize::MAX,
            run(cs@.subrange(0, i as int)) == Ok::<(LexState, LexMode), (nat, nat)>((state@, mode)),
            state.line_no <= i + 1,
            state.col_no <= i + 1,
        decreases cs@.len() - i,
    {
        let c = cs[i];
        let ghost before = state@;
        proof {
            let p = cs@.subrange(0, i + 1);
            assert(p.drop_last() =~= cs@.subrange(0, i as int));
            assert(p.last() == c);
        }
        match mode {
            LexMode::Normal => {
                if c == '(' {
                    state.try_push_token();
                    state.push_token(TokenType::LBracket, 1);
                } else if c == ')' {
                    state.try_push_token();
                    state.push_token(TokenType::RBracket, 1);
                } else if c == ' ' || c == '\t' || c == '\r' || c == '\n' {
                    state.try_push_token();
                } else if c == '"' {
                    state.try_push_token();
                    mode = LexMode::InString;
                } else if c == ';' {
                    state.try_push_token();
                    mode = LexMode::Comment;
                } else {
                    state.current_token.push(c);
                }
            },
            LexMode::InString => {
                if c == '"' {
                    let text = string_from_chars(state.current_token.as_slice());
                    let len = state.current_token.len();
                    state.push_token(TokenType::String(text), len);
                    mode = LexMode::Normal;
                } else if c == '\\' {
                    mode = LexMode::Escape;
                } else {
                    state.current_token.push(c);
                }
            },
            LexMode::Escape => {
                match escape_of(c) {
                    Some(e) => {
                        state.current_token.push(e);
                        mode = LexMode::InString;
                    },
                    None => {
                        let mut message = String::from_str("Invalid escape character: \\");
                        push_char(&mut message, c);
                        proof {
                            lemma_run_error_stays(cs@, i + 1);
                            assert(cs@.subrange(0, cs@.len() as int) =~= cs@);
                        }
                        return Err(TokeniserError::new(&state, message));
                    },
                }
            },
            LexMode::Comment => {
                if c == '\n' {
                    mode = LexMode::Normal;
                }
            },
        }
        state.col_no = state.col_no + 1;
        if c == '\n' {
            state.line_no = state.line_no + 1;
            state.col_no = 1;
        }
        i += 1;
    }
    state.try_push_token();
    assert(cs@.subrange(0, cs@.len() as int) =~= source@);
    Ok(state.get_tokens())
}

} // verus!
