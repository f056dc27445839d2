//! Tokens, and the scanner that produces them from source text.

use vstd::prelude::*;
use crate::lexical::{
    char_at, digits, errors_from, errors_of, is_digit, is_name_part, is_name_start, last_start,
    lemma_lexeme_bounds, lemma_line_bound, lemma_run_in_class, lexeme_at, line_at, name_at,
    number_at, run_end, string_at, tokens_from, tokens_of, word_kind, CharClass, Found, Lexeme,
};
use crate::text::{decode, encode, same_text};

verus! {

/// An unsigned decimal numeral, digit by digit: the digits before the point
/// and those after it, most significant first, each between 0 and 9.
#[derive(Debug)]
pub struct Decimal {
    pub whole: Vec<u8>,
    pub fraction: Vec<u8>,
}

/// The mathematical content of a [`Decimal`].
pub struct DecimalView {
    pub whole: Seq<u8>,
    pub fraction: Seq<u8>,
}

impl DecimalView {
    /// There is a digit before the point, and every digit is between 0
    /// and 9.
    pub open spec fn wf(self) -> bool {
        &&& self.whole.len() > 0
        &&& forall|i: int| 0 <= i < self.whole.len() ==> #[trigger] self.whole[i] <= 9
        &&& forall|i: int| 0 <= i < self.fraction.len() ==> #[trigger] self.fraction[i] <= 9
    }
}

impl View for Decimal {
    type V = DecimalView;

    open spec fn view(&self) -> DecimalView {
        DecimalView { whole: self.whole@, fraction: self.fraction@ }
    }
}

/// Whether two digit strings are the same.
fn same_digits(left: &Vec<u8>, right: &Vec<u8>) -> (same: bool)
    ensures
        same == (left@ == right@),
{
    if left.len() != right.len() {
        return false;
    }
    let mut i: usize = 0;
    while i < left.len()
        invariant
            i <= left.len(),
            left.len() == right.len(),
            forall|j: int| 0 <= j < i ==> left@[j] == right@[j],
        decreases left.len() - i,
    {
        if left[i] != right[i] {
            return false;
        }
        i += 1;
    }
    assert(left@ =~= right@);
    true
}

/// A copy of a digit string.
fn copy_digits(digits: &Vec<u8>) -> (copy: Vec<u8>)
    ensures
        copy@ == digits@,
{
    let mut copy: Vec<u8> = Vec::new();
    let mut i: usize = 0;
    while i < digits.len()
        invariant
            i <= digits.len(),
            copy@ == digits@.take(i as int),
        decreases digits.len() - i,
    {
        copy.push(digits[i]);
        i += 1;
    }
    copy
}

impl Clone for Decimal {
    fn clone(&self) -> (copy: Decimal)
        ensures
            copy@ == self@,
    {
        Decimal { whole: copy_digits(&self.whole), fraction: copy_digits(&self.fraction) }
    }
}

impl PartialEq for Decimal {
    fn eq(&self, other: &Decimal) -> (same: bool) {
        same_digits(&self.whole, &other.whole) && same_digits(&self.fraction, &other.fraction)
    }
}

impl vstd::std_specs::cmp::PartialEqSpecImpl for Decimal {
    open spec fn obeys_eq_spec() -> bool {
        true
    }

    open spec fn eq_spec(&self, other: &Decimal) -> bool {
        self@ == other@
    }
}

/// What a token is: punctuation, an operator, a literal with its payload, a
/// reserved word, or the end of the input.
#[derive(Debug)]
pub enum TokenKind {
    // Single-character tokens.
    LeftParen,
    RightParen,
    LeftBrace,
    RightBrace,
    Comma,
    Dot,
    Minus,
    Plus,
    SemiColon,
    Slash,
    Star,
    // One or two character tokens.
    Bang,
    BangEqual,
    Equal,
    EqualEqual,
    Greater,
    GreaterEqual,
    Less,
    LessEqual,
    // Literals.
    Identifier,
    String(String),
    Number(Decimal),
    // Keywords.
    And,
    Class,
    Else,
    False,
    Fun,
    For,
    If,
    Nil,
    Or,
    Print,
    Return,
    Super,
    This,
    True,
    Var,
    While,
    Eof,
}

/// The mathematical content of a [`TokenKind`]: the same variants, with the
/// payloads as sequences.
pub enum KindView {
    // Single-character tokens.
    LeftParen,
    RightParen,
    LeftBrace,
    RightBrace,
    Comma,
    Dot,
    Minus,
    Plus,
    SemiColon,
    Slash,
    Star,
    // One or two character tokens.
    Bang,
    BangEqual,
    Equal,
    EqualEqual,
    Greater,
    GreaterEqual,
    Less,
    LessEqual,
    // Literals.
    Identifier,
    String(Seq<char>),
    Number(DecimalView),
    // Keywords.
    And,
    Class,
    Else,
    False,
    Fun,
    For,
    If,
    Nil,
    Or,
    Print,
    Return,
    Super,
    This,
    True,
    Var,
    While,
    Eof,
}

impl View for TokenKind {
    type V = KindView;

    open spec fn view(&self) -> KindView {
        match self {
            TokenKind::LeftParen => KindView::LeftParen,
            TokenKind::RightParen => KindView::RightParen,
            TokenKind::LeftBrace => KindView::LeftBrace,
            TokenKind::RightBrace => KindView::RightBrace,
            TokenKind::Comma => KindView::Comma,
            TokenKind::Dot => KindView::Dot,
            TokenKind::Minus => KindView::Minus,
            TokenKind::Plus => KindView::Plus,
            TokenKind::SemiColon => KindView::SemiColon,
            TokenKind::Slash => KindView::Slash,
            TokenKind::Star => KindView::Star,
            TokenKind::Bang => KindView::Bang,
            TokenKind::BangEqual => KindView::BangEqual,
            TokenKind::Equal => KindView::Equal,
            TokenKind::EqualEqual => KindView::EqualEqual,
            TokenKind::Greater => KindView::Greater,
            TokenKind::GreaterEqual => KindView::GreaterEqual,
            TokenKind::Less => KindView::Less,
            TokenKind::LessEqual => KindView::LessEqual,
            TokenKind::Identifier => KindView::Identifier,
            TokenKind::And => KindView::And,
            TokenKind::Class => KindView::Class,
            TokenKind::Else => KindView::Else,
            TokenKind::False => KindView::False,
            TokenKind::Fun => KindView::Fun,
            TokenKind::For => KindView::For,
            TokenKind::If => KindView::If,
            TokenKind::Nil => KindView::Nil,
            TokenKind::Or => KindView::Or,
            TokenKind::Print => KindView::Print,
            TokenKind::Return => KindView::Return,
            TokenKind::Super => KindView::Super,
            TokenKind::This => KindView::This,
            TokenKind::True => KindView::True,
            TokenKind::Var => KindView::Var,
            TokenKind::While => KindView::While,
            TokenKind::Eof => KindView::Eof,
            TokenKind::String(text) => KindView::String(text@),
            TokenKind::Number(value) => KindView::Number(value@),
        }
    }
}

impl Clone for TokenKind {
    fn clone(&self) -> (copy: TokenKind)
        ensures
            copy@ == self@,
    {
        match self {
            TokenKind::LeftParen => TokenKind::LeftParen,
            TokenKind::RightParen => TokenKind::RightParen,
            TokenKind::LeftBrace => TokenKind::LeftBrace,
            TokenKind::RightBrace => TokenKind::RightBrace,
            TokenKind::Comma => TokenKind::Comma,
            TokenKind::Dot => TokenKind::Dot,
            TokenKind::Minus => TokenKind::Minus,
            TokenKind::Plus => TokenKind::Plus,
            TokenKind::SemiColon => TokenKind::SemiColon,
            TokenKind::Slash => TokenKind::Slash,
            TokenKind::Star => TokenKind::Star,
            TokenKind::Bang => TokenKind::Bang,
            TokenKind::BangEqual => TokenKind::BangEqual,
            TokenKind::Equal => TokenKind::Equal,
            TokenKind::EqualEqual => TokenKind::EqualEqual,
            TokenKind::Greater => TokenKind::Greater,
            TokenKind::GreaterEqual => TokenKind::GreaterEqual,
            TokenKind::Less => TokenKind::Less,
            TokenKind::LessEqual => TokenKind::LessEqual,
            TokenKind::Identifier => TokenKind::Identifier,
            TokenKind::And => TokenKind::And,
            TokenKind::Class => TokenKind::Class,
            TokenKind::Else => TokenKind::Else,
            TokenKind::False => TokenKind::False,
            TokenKind::Fun => TokenKind::Fun,
            TokenKind::For => TokenKind::For,
            TokenKind::If => TokenKind::If,
            TokenKind::Nil => TokenKind::Nil,
            TokenKind::Or => TokenKind::Or,
            TokenKind::Print => TokenKind::Print,
            TokenKind::Return => TokenKind::Return,
            TokenKind::Super => TokenKind::Super,
            TokenKind::This => TokenKind::This,
            TokenKind::True => TokenKind::True,
            TokenKind::Var => TokenKind::Var,
            TokenKind::While => TokenKind::While,
            TokenKind::Eof => TokenKind::Eof,
            TokenKind::String(text) => TokenKind::String(text.clone()),
            TokenKind::Number(value) => TokenKind::Number(value.clone()),
        }
    }
}

impl PartialEq for TokenKind {
    fn eq(&self, other: &TokenKind) -> (same: bool) {
        match (self, other) {
            (TokenKind::LeftParen, TokenKind::LeftParen) => true,
            (TokenKind::RightParen, TokenKind::RightParen) => true,
            (TokenKind::LeftBrace, TokenKind::LeftBrace) => true,
            (TokenKind::RightBrace, TokenKind::RightBrace) => true,
            (TokenKind::Comma, TokenKind::Comma) => true,
            (TokenKind::Dot, TokenKind::Dot) => true,
            (TokenKind::Minus, TokenKind::Minus) => true,
            (TokenKind::Plus, TokenKind::Plus) => true,
            (TokenKind::SemiColon, TokenKind::SemiColon) => true,
            (TokenKind::Slash, TokenKind::Slash) => true,
            (TokenKind::Star, TokenKind::Star) => true,
            (TokenKind::Bang, TokenKind::Bang) => true,
            (TokenKind::BangEqual, TokenKind::BangEqual) => true,
            (TokenKind::Equal, TokenKind::Equal) => true,
            (TokenKind::EqualEqual, TokenKind::EqualEqual) => true,
            (TokenKind::Greater, TokenKind::Greater) => true,
            (TokenKind::GreaterEqual, TokenKind::GreaterEqual) => true,
            (TokenKind::Less, TokenKind::Less) => true,
            (TokenKind::LessEqual, TokenKind::LessEqual) => true,
            (TokenKind::Identifier, TokenKind::Identifier) => true,
            (TokenKind::And, TokenKind::And) => true,
            (TokenKind::Class, TokenKind::Class) => true,
            (TokenKind::Else, TokenKind::Else) => true,
            (TokenKind::False, TokenKind::False) => true,
            (TokenKind::Fun, TokenKind::Fun) => true,
            (TokenKind::For, TokenKind::For) => true,
            (TokenKind::If, TokenKind::If) => true,
            (TokenKind::Nil, TokenKind::Nil) => true,
            (TokenKind::Or, TokenKind::Or) => true,
            (TokenKind::Print, TokenKind::Print) => true,
            (TokenKind::Return, TokenKind::Return) => true,
            (TokenKind::Super, TokenKind::Super) => true,
            (TokenKind::This, TokenKind::This) => true,
            (TokenKind::True, TokenKind::True) => true,
            (TokenKind::Var, TokenKind::Var) => true,
            (TokenKind::While, TokenKind::While) => true,
            (TokenKind::Eof, TokenKind::Eof) => true,
            (TokenKind::String(left), TokenKind::String(right)) => *left == *right,
            (TokenKind::Number(left), TokenKind::Number(right)) => *left == *right,
            _ => false,
        }
    }
}

impl vstd::std_specs::cmp::PartialEqSpecImpl for TokenKind {
    open spec fn obeys_eq_spec() -> bool {
        true
    }

    open spec fn eq_spec(&self, other: &TokenKind) -> bool {
        self@ == other@
    }
}

/// A classified, located piece of source text.
#[derive(Debug, PartialEq)]
pub struct Token {
    pub kind: TokenKind,
    /// The source text that the token spans.
    pub lexeme: String,
    /// The line, counted from 1, on which the token starts.
    pub line: usize,
}

/// The mathematical content of a [`Token`].
pub struct TokenView {
    pub kind: KindView,
    pub lexeme: Seq<char>,
    pub line: nat,
}

impl View for Token {
    type V = TokenView;

    open spec fn view(&self) -> TokenView {
        TokenView { kind: self.kind@, lexeme: self.lexeme@, line: self.line as nat }
    }
}

impl Clone for Token {
    fn clone(&self) -> (copy: Token)
        ensures
            copy@ == self@,
    {
        Token { kind: self.kind.clone(), lexeme: self.lexeme.clone(), line: self.line }
    }
}

impl Token {
    /// The token with these parts.
    pub fn new(kind: TokenKind, lexeme: String, line: usize) -> (token: Token)
        ensures
            token.kind == kind,
            token.lexeme == lexeme,
            token.line == line,
    {
        Token { kind, lexeme, line }
    }
}

/// What can go wrong with a lexeme.
#[derive(Debug, Clone, Copy, PartialEq, Eq, Structural)]
pub enum LexicalError {
    /// A character that begins no lexeme.
    UnexpectedCharacter,
    /// A string literal that the end of the input cuts short.
    UnterminatedString,
}

/// A lexical error, and the line that the scanner had reached when it met
/// the error.
#[derive(Debug, Clone, Copy, PartialEq, Eq, Structural)]
pub struct Diagnostic {
    pub line: usize,
    pub error: LexicalError,
}

/// The mathematical content of a [`Diagnostic`].
pub struct DiagnosticView {
    pub line: nat,
    pub error: LexicalError,
}

impl View for Diagnostic {
    type V = DiagnosticView;

    open spec fn view(&self) -> DiagnosticView {
        DiagnosticView { line: self.line as nat, error: self.error }
    }
}

impl Diagnostic {
    /// What the error is, in words.
    pub fn message(&self) -> (text: String)
        ensures
            text@ == match self.error {
                LexicalError::UnexpectedCharacter => "Unexpected character"@,
                LexicalError::UnterminatedString => "Unterminated string"@,
            },
    {
        match self.error {
            LexicalError::UnexpectedCharacter => "Unexpected character".to_owned(),
            LexicalError::UnterminatedString => "Unterminated string".to_owned(),
        }
    }
}

/// The views of a sequence of diagnostics, in order.
pub open spec fn diagnostic_views(diagnostics: Seq<Diagnostic>) -> Seq<DiagnosticView> {
    diagnostics.map_values(|diagnostic: Diagnostic| diagnostic@)
}

/// The views of a sequence of tokens, in order.
pub open spec fn token_views(tokens: Seq<Token>) -> Seq<TokenView> {
    tokens.map_values(|token: Token| token@)
}

fn digit(c: char) -> (answer: bool)
    ensures
        answer == is_digit(c),
{
    '0' <= c && c <= '9'
}

fn name_start(c: char) -> (answer: bool)
    ensures
        answer == is_name_start(c),
{
    ('a' <= c && c <= 'z') || ('A' <= c && c <= 'Z') || c == '_'
}

fn name_part(c: char) -> (answer: bool)
    ensures
        answer == is_name_part(c),
{
    c.is_alphanumeric() || c == '_'
}

/// The values of the decimal digits `chars[from..to]`.
fn digits_of(chars: &Vec<char>, from: usize, to: usize) -> (values: Vec<u8>)
    requires
        from <= to <= chars.len(),
        forall|i: int| from <= i < to ==> is_digit(#[trigger] chars@[i]),
    ensures
        values@ == digits(chars@, from as int, to as int),
{
    let mut values: Vec<u8> = Vec::new();
    let mut i: usize = from;
    while i < to
        invariant
            from <= i <= to <= chars.len(),
            forall|j: int| from <= j < to ==> is_digit(#[trigger] chars@[j]),
            values@ == digits(chars@, from as int, i as int),
        decreases to - i,
    {
        let c = chars[i];
        assert(is_digit(chars@[i as int]));
        values.push((c as u32 - '0' as u32) as u8);
        i += 1;
        assert(values@ =~= digits(chars@, from as int, i as int));
    }
    values
}

/// Reads a source text into tokens.
///
/// The tokens and the errors that a scan finds are added to `tokens` and
/// `diagnostics`; `had_errors` says whether there was any error.
#[derive(Debug)]
pub struct Scanner {
    pub source: String,
    pub tokens: Vec<Token>,
    pub had_errors: bool,
    pub diagnostics: Vec<Diagnostic>,
    /// The characters of `source`.
    pub chars: Vec<char>,
    /// Where the lexeme that is being read starts, and the line of that place.
    pub start: usize,
    pub start_line: usize,
    /// The first character not yet read, and the line of that place.
    pub current: usize,
    pub line: usize,
}

impl Scanner {
    /// The scanner's fields fit together: its cursor is inside the source
    /// that it holds and its line counter has followed the cursor.
    pub open spec fn wf(&self) -> bool {
        &&& self.chars@ == self.source@
        &&& self.current <= self.chars.len() < usize::MAX
        &&& self.line == line_at(self.chars@, self.current as int)
    }

    /// A lexeme is being read: it starts at or before the cursor.
    spec fn reading(&self) -> bool {
        &&& self.wf()
        &&& self.start <= self.current
        &&& self.start_line == line_at(self.chars@, self.start as int)
    }

    /// Nothing but the cursor and its line differ between `before` and
    /// `self`, and the cursor is at `to`.
    spec fn moved(&self, before: &Scanner, to: int) -> bool {
        &&& self.source == before.source
        &&& self.chars == before.chars
        &&& self.tokens == before.tokens
        &&& self.diagnostics == before.diagnostics
        &&& self.had_errors == before.had_errors
        &&& self.start == before.start
        &&& self.start_line == before.start_line
        &&& self.current == to
        &&& self.line == line_at(self.chars@, to)
    }

    /// The lexeme that started at `before.start` has been read as `lexeme`:
    /// the cursor is after it, and what it gives has been recorded.
    spec fn stepped(&self, before: &Scanner, lexeme: Lexeme) -> bool {
        &&& self.reading()
        &&& self.source == before.source
        &&& self.chars == before.chars
        &&& self.start == before.start
        &&& self.current == lexeme.end
        &&& token_views(self.tokens@) == token_views(before.tokens@) + tokens_of(
            before.chars@,
            before.start as int,
            lexeme,
        )
        &&& diagnostic_views(self.diagnostics@) == diagnostic_views(before.diagnostics@)
            + errors_of(before.chars@, lexeme)
        &&& self.had_errors == (before.had_errors || lexeme.found is Error)
    }

    /// A scanner on this source, at its start, with nothing found yet. The
    /// source has fewer characters than the largest `usize`, so that the
    /// line counter cannot overflow.
    pub fn new(source: String) -> (scanner: Scanner)
        requires
            source@.len() < usize::MAX,
        ensures
            scanner.wf(),
            scanner.source == source,
            scanner.current == 0,
            scanner.start == 0,
            scanner.start_line == 1,
            scanner.tokens@.len() == 0,
            scanner.diagnostics@.len() == 0,
            !scanner.had_errors,
    {
        let chars = decode(source.as_str());
        Scanner {
            source,
            tokens: Vec::new(),
            had_errors: false,
            diagnostics: Vec::new(),
            chars,
            start: 0,
            start_line: 1,
            current: 0,
            line: 1,
        }
    }

    /// Reads the rest of the source, to its end, and closes the tokens with
    /// an `Eof`.
    pub fn scan_tokens(&mut self)
        requires
            old(self).wf(),
        ensures
            final(self).wf(),
            final(self).source == old(self).source,
            final(self).current == old(self).source@.len(),
            token_views(final(self).tokens@) == token_views(old(self).tokens@) + tokens_from(
                old(self).source@,
                old(self).current as int,
            ),
            diagnostic_views(final(self).diagnostics@) == diagnostic_views(old(self).diagnostics@)
                + errors_from(old(self).source@, old(self).current as int),
            final(self).had_errors == (old(self).had_errors || errors_from(
                old(self).source@,
                old(self).current as int,
            ).len() > 0),
            final(self).tokens@.len() > 0,
            final(self).tokens@.last().kind is Eof,
            final(self).chars == old(self).chars,
            final(self).start == last_start(
                old(self).source@,
                old(self).current as int,
                old(self).start as int,
            ),
            final(self).start_line == if old(self).current < old(self).source@.len() {
                line_at(old(self).source@, final(self).start as int)
            } else {
                old(self).start_line as nat
            },
    {
        let ghost src = self.chars@;
        let ghost tokens = token_views(self.tokens@) + tokens_from(src, self.current as int);
        let ghost errors = diagnostic_views(self.diagnostics@) + errors_from(
            src,
            self.current as int,
        );
        let ghost failed = self.had_errors || errors_from(src, self.current as int).len() > 0;
        while !self.is_at_end()
            invariant
                self.wf(),
                self.source == old(self).source,
                self.chars == old(self).chars,
                self.chars@ == src,
                old(self).current <= self.current,
                last_start(src, self.current as int, self.start as int) == last_start(
                    src,
                    old(self).current as int,
                    old(self).start as int,
                ),
                self.start_line == if old(self).current < self.current {
                    line_at(src, self.start as int)
                } else {
                    old(self).start_line as nat
                },
                token_views(self.tokens@) + tokens_from(src, self.current as int) == tokens,
                diagnostic_views(self.diagnostics@) + errors_from(src, self.current as int)
                    == errors,
                (self.had_errors || errors_from(src, self.current as int).len() > 0) == failed,
            decreases self.chars.len() - self.current,
        {
            self.start = self.current;
            self.start_line = self.line;
            proof {
                lemma_lexeme_bounds(src, self.current as int);
            }
            self.scan_token();
            proof {
                let rest = self.current as int;
                assert(token_views(self.tokens@) + tokens_from(src, rest) =~= tokens);
                assert(diagnostic_views(self.diagnostics@) + errors_from(src, rest) =~= errors);
            }
        }
        let token = Token::new(TokenKind::Eof, "".to_owned(), self.line);
        proof {
            reveal_strlit("");
            assert(token@.lexeme =~= Seq::<char>::empty());
        }
        let ghost recorded = self.tokens@;
        self.tokens.push(token);
        proof {
            assert(token_views(self.tokens@) =~= token_views(recorded) + tokens_from(
                src,
                self.current as int,
            ));
            assert(diagnostic_views(self.diagnostics@) =~= errors);
            assert(self.tokens@.last() == token);
        }
    }

    /// Records a lexical error met on `line`.
    fn error(&mut self, line: usize, error: LexicalError)
        ensures
            final(self).had_errors,
            final(self).diagnostics@ == old(self).diagnostics@.push(Diagnostic { line, error }),
            final(self).source == old(self).source,
            final(self).chars == old(self).chars,
            final(self).tokens == old(self).tokens,
            final(self).start == old(self).start,
            final(self).start_line == old(self).start_line,
            final(self).current == old(self).current,
            final(self).line == old(self).line,
    {
        self.had_errors = true;
        self.diagnostics.push(Diagnostic { line, error });
    }

    /// Adds the token of this kind that spans the lexeme just read.
    fn add_token(&mut self, kind: TokenKind)
        requires
            old(self).reading(),
        ensures
            final(self).stepped(
                old(self),
                Lexeme { found: Found::Token(kind@), end: old(self).current as int },
            ),
    {
        let text = encode(&self.chars, self.start, self.current);
        let token = Token::new(kind, text, self.start_line);
        let ghost recorded = self.tokens@;
        self.tokens.push(token);
        proof {
            assert(token_views(self.tokens@) =~= token_views(recorded) + seq![token@]);
            assert(diagnostic_views(self.diagnostics@) + Seq::empty() =~= diagnostic_views(
                self.diagnostics@,
            ));
        }
    }

    /// Reads one lexeme, the one that starts at the cursor.
    fn scan_token(&mut self)
        requires
            old(self).reading(),
            old(self).start == old(self).current,
            old(self).current < old(self).chars.len(),
        ensures
            final(self).stepped(old(self), lexeme_at(old(self).chars@, old(self).current as int)),
    {
        let ghost src = self.chars@;
        let ghost pos = self.current as int;
        let c = match self.advance() {
            Some(c) => c,
            None => return,
        };
        match c {
            // one character, one token
            '(' => self.add_token(TokenKind::LeftParen),
            ')' => self.add_token(TokenKind::RightParen),
            '{' => self.add_token(TokenKind::LeftBrace),
            '}' => self.add_token(TokenKind::RightBrace),
            ',' => self.add_token(TokenKind::Comma),
            '.' => self.add_token(TokenKind::Dot),
            '-' => self.add_token(TokenKind::Minus),
            '+' => self.add_token(TokenKind::Plus),
            ';' => self.add_token(TokenKind::SemiColon),
            '*' => self.add_token(TokenKind::Star),
            // one character, or two with a following `=`
            '!' => {
                let kind = if self.advance_if_matches('=') {
                    TokenKind::BangEqual
                } else {
                    TokenKind::Bang
                };
                self.add_token(kind)
            },
            '=' => {
                let kind = if self.advance_if_matches('=') {
                    TokenKind::EqualEqual
                } else {
                    TokenKind::Equal
                };
                self.add_token(kind)
            },
            '<' => {
                let kind = if self.advance_if_matches('=') {
                    TokenKind::LessEqual
                } else {
                    TokenKind::Less
                };
                self.add_token(kind)
            },
            '>' => {
                let kind = if self.advance_if_matches('=') {
                    TokenKind::GreaterEqual
                } else {
                    TokenKind::Greater
                };
                self.add_token(kind)
            },
            // a comment, or a division
            '/' => {
                if self.advance_if_matches('/') {
                    // a comment runs to the end of the line
                    while self.peek() != '\n' && !self.is_at_end()
                        invariant
                            self.reading(),
                            self.moved(old(self), self.current as int),
                            pos + 2 <= self.current,
                            src == self.chars@,
                            run_end(src, CharClass::InComment, self.current as int) == run_end(
                                src,
                                CharClass::InComment,
                                pos + 2,
                            ),
                        decreases self.chars.len() - self.current,
                    {
                        self.advance();
                    }
                    proof {
                        assert(token_views(self.tokens@) + Seq::empty() =~= token_views(
                            self.tokens@,
                        ));
                        assert(diagnostic_views(self.diagnostics@) + Seq::empty()
                            =~= diagnostic_views(self.diagnostics@));
                    }
                } else {
                    self.add_token(TokenKind::Slash);
                }
            },
            // blank space
            ' ' | '\r' | '\t' | '\n' => {
                proof {
                    assert(token_views(self.tokens@) + Seq::empty() =~= token_views(self.tokens@));
                    assert(diagnostic_views(self.diagnostics@) + Seq::empty()
                        =~= diagnostic_views(self.diagnostics@));
                }
            },
            '"' => self.string_literal(),
            _ => {
                if digit(c) {
                    self.number_literal()
                } else if name_start(c) {
                    self.identifier()
                } else {
                    let ghost recorded = self.diagnostics@;
                    self.error(self.line, LexicalError::UnexpectedCharacter);
                    proof {
                        assert(token_views(self.tokens@) + Seq::empty() =~= token_views(
                            self.tokens@,
                        ));
                        assert(diagnostic_views(self.diagnostics@) =~= diagnostic_views(recorded)
                            + errors_of(
                            src,
                            Lexeme {
                                found: Found::Error(LexicalError::UnexpectedCharacter),
                                end: pos + 1,
                            },
                        ));
                    }
                }
            },
        }
    }

    /// The reserved word that `identifier` is, or `Identifier`.
    fn token_for(&self, identifier: &str) -> (kind: TokenKind)
        ensures
            kind@ == word_kind(identifier@),
    {
        if same_text(identifier, "and") {
            TokenKind::And
        } else if same_text(identifier, "class") {
            TokenKind::Class
        } else if same_text(identifier, "else") {
            TokenKind::Else
        } else if same_text(identifier, "false") {
            TokenKind::False
        } else if same_text(identifier, "for") {
            TokenKind::For
        } else if same_text(identifier, "fun") {
            TokenKind::Fun
        } else if same_text(identifier, "if") {
            TokenKind::If
        } else if same_text(identifier, "nil") {
            TokenKind::Nil
        } else if same_text(identifier, "or") {
            TokenKind::Or
        } else if same_text(identifier, "print") {
            TokenKind::Print
        } else if same_text(identifier, "return") {
            TokenKind::Return
        } else if same_text(identifier, "super") {
            TokenKind::Super
        } else if same_text(identifier, "this") {
            TokenKind::This
        } else if same_text(identifier, "true") {
            TokenKind::True
        } else if same_text(identifier, "var") {
            TokenKind::Var
        } else if same_text(identifier, "while") {
            TokenKind::While
        } else {
            TokenKind::Identifier
        }
    }

    /// Reads the rest of a name, whose first character has been read.
    fn identifier(&mut self)
        requires
            old(self).reading(),
            old(self).current == old(self).start + 1,
        ensures
            final(self).stepped(old(self), name_at(old(self).chars@, old(self).start as int)),
    {
        let ghost src = self.chars@;
        while !self.is_at_end() && name_part(self.peek())
            invariant
                self.reading(),
                self.moved(old(self), self.current as int),
                old(self).start < self.current,
                run_end(src, CharClass::NamePart, self.current as int) == run_end(
                    src,
                    CharClass::NamePart,
                    old(self).start + 1,
                ),
                src == self.chars@,
            decreases self.chars.len() - self.current,
        {
            self.advance();
        }
        let identifier_value = encode(&self.chars, self.start, self.current);
        let kind = self.token_for(identifier_value.as_str());
        self.add_token(kind);
    }

    /// Reads the rest of a number, whose first digit has been read.
    fn number_literal(&mut self)
        requires
            old(self).reading(),
            old(self).current == old(self).start + 1,
            is_digit(old(self).chars@[old(self).start as int]),
        ensures
            final(self).stepped(old(self), number_at(old(self).chars@, old(self).start as int)),
    {
        let ghost src = self.chars@;
        let ghost pos = self.start as int;
        while digit(self.peek())
            invariant
                self.reading(),
                self.moved(old(self), self.current as int),
                old(self).start < self.current,
                run_end(src, CharClass::Digit, self.current as int) == run_end(
                    src,
                    CharClass::Digit,
                    pos,
                ),
                src == self.chars@,
                pos == self.start,
            decreases self.chars.len() - self.current,
        {
            self.advance();
        }
        let whole_end = self.current;
        let mut fraction_start = self.current;
        // a fraction needs a digit after the point
        if self.peek() == '.' && digit(self.peek_next()) {
            self.advance();
            fraction_start = self.current;
            while digit(self.peek())
                invariant
                    self.reading(),
                    self.moved(old(self), self.current as int),
                    whole_end < self.current,
                    run_end(src, CharClass::Digit, self.current as int) == run_end(
                        src,
                        CharClass::Digit,
                        whole_end + 1,
                    ),
                    src == self.chars@,
                decreases self.chars.len() - self.current,
            {
                self.advance();
            }
        }
        proof {
            assert forall|i: int| pos <= i < whole_end implies is_digit(#[trigger] src[i]) by {
                lemma_run_in_class(src, CharClass::Digit, pos, i);
            }
            assert forall|i: int| fraction_start <= i < self.current implies is_digit(
                #[trigger] src[i],
            ) by {
                lemma_run_in_class(src, CharClass::Digit, whole_end + 1, i);
            }
        }
        let whole = digits_of(&self.chars, self.start, whole_end);
        let fraction = digits_of(&self.chars, fraction_start, self.current);
        proof {
            assert(digits(src, whole_end as int, whole_end as int) =~= Seq::<u8>::empty());
        }
        self.add_token(TokenKind::Number(Decimal { whole, fraction }));
    }

    /// Reads the rest of a string literal, whose opening quote has been read.
    fn string_literal(&mut self)
        requires
            old(self).reading(),
            old(self).current == old(self).start + 1,
        ensures
            final(self).stepped(old(self), string_at(old(self).chars@, old(self).start as int)),
    {
        let ghost src = self.chars@;
        while self.peek() != '"' && !self.is_at_end()
            invariant
                self.reading(),
                self.moved(old(self), self.current as int),
                old(self).start < self.current,
                run_end(src, CharClass::InString, self.current as int) == run_end(
                    src,
                    CharClass::InString,
                    old(self).start + 1,
                ),
                src == self.chars@,
            decreases self.chars.len() - self.current,
        {
            self.advance();
        }
        if self.is_at_end() {
            let ghost recorded = self.diagnostics@;
            self.error(self.line, LexicalError::UnterminatedString);
            proof {
                assert(token_views(self.tokens@) + Seq::empty() =~= token_views(self.tokens@));
                assert(diagnostic_views(self.diagnostics@) =~= diagnostic_views(recorded)
                    + errors_of(src, string_at(src, self.start as int)));
            }
            return ;
        }
        // the closing quote
        self.advance();
        // the payload is what stands between the quotes
        let literal_value = encode(&self.chars, self.start + 1, self.current - 1);
        self.add_token(TokenKind::String(literal_value));
    }

    /// The next character, without reading it; `'\0'` at the end.
    fn peek(&self) -> (c: char)
        requires
            self.wf(),
        ensures
            c == if self.current < self.chars.len() {
                self.chars@[self.current as int]
            } else {
                '\0'
            },
    {
        if self.current < self.chars.len() {
            self.chars[self.current]
        } else {
            '\0'
        }
    }

    /// The character after the next; `'\0'` where there is none.
    fn peek_next(&self) -> (c: char)
        requires
            self.wf(),
        ensures
            c == if self.current + 1 < self.chars.len() {
                self.chars@[self.current + 1]
            } else {
                '\0'
            },
    {
        if self.current + 1 < self.chars.len() {
            self.chars[self.current + 1]
        } else {
            '\0'
        }
    }

    /// Reads the next character if it is the expected one.
    fn advance_if_matches(&mut self, expected: char) -> (matched: bool)
        requires
            old(self).reading(),
        ensures
            matched == (char_at(old(self).chars@, old(self).current as int) == Some(expected)),
            matched ==> final(self).moved(old(self), old(self).current + 1),
            !matched ==> *final(self) == *old(self),
            final(self).reading(),
    {
        if self.current < self.chars.len() && self.chars[self.current] == expected {
            self.advance();
            true
        } else {
            false
        }
    }

    /// Reads the next character, if there is one. Reading a line feed moves
    /// the scanner to the next line.
    fn advance(&mut self) -> (read: Option<char>)
        requires
            old(self).reading(),
        ensures
            read == char_at(old(self).chars@, old(self).current as int),
            read is Some ==> final(self).moved(old(self), old(self).current + 1),
            read is None ==> *final(self) == *old(self),
            final(self).reading(),
    {
        if self.current < self.chars.len() {
            let c = self.chars[self.current];
            proof {
                lemma_line_bound(self.chars@, self.current as int);
            }
            if c == '\n' {
                self.line = self.line + 1;
            }
            self.current = self.current + 1;
            Some(c)
        } else {
            None
        }
    }

    fn is_at_end(&self) -> (at_end: bool)
        ensures
            at_end == (self.current >= self.chars.len()),
    {
        self.current >= self.chars.len()
    }
}

} // verus!
