//! The lexical grammar: what the tokens of a source text are.
//!
//! A source text is a sequence of characters. Scanning reads it lexeme by
//! lexeme: [`lexeme_at`] says what stands at a position and where it ends,
//! [`tokens_from`] and [`errors_from`] collect what all the lexemes from a
//! position on give, and [`scan`] and [`scan_errors`] what the whole text
//! gives.

use vstd::prelude::*;
use crate::scanner::{DecimalView, DiagnosticView, KindView, LexicalError, TokenView};
use crate::text::alphanumeric;

verus! {

/// The character at index `i` of `src`, if there is one.
pub open spec fn char_at(src: Seq<char>, i: int) -> Option<char> {
    if 0 <= i < src.len() {
        Some(src[i])
    } else {
        None
    }
}

/// The line, counted from 1, that position `pos` of `src` lies on: one more
/// than the number of line feeds before `pos`.
pub open spec fn line_at(src: Seq<char>, pos: int) -> nat
    decreases pos,
{
    if pos <= 0 {
        1
    } else if char_at(src, pos - 1) == Some('\n') {
        line_at(src, pos - 1) + 1
    } else {
        line_at(src, pos - 1)
    }
}

pub open spec fn is_digit(c: char) -> bool {
    '0' <= c <= '9'
}

/// Whether `c` can begin a name: an ASCII letter or an underscore.
pub open spec fn is_name_start(c: char) -> bool {
    'a' <= c <= 'z' || 'A' <= c <= 'Z' || c == '_'
}

/// Whether `c` can continue a name: alphanumeric or an underscore.
pub open spec fn is_name_part(c: char) -> bool {
    alphanumeric(c) || c == '_'
}

pub open spec fn is_blank(c: char) -> bool {
    c == ' ' || c == '\r' || c == '\t' || c == '\n'
}

/// The classes of characters that a lexeme can run over.
pub enum CharClass {
    Digit,
    NamePart,
    /// Anything but the closing quote.
    InString,
    /// Anything but the line feed.
    InComment,
}

pub open spec fn in_class(class: CharClass, c: char) -> bool {
    match class {
        CharClass::Digit => is_digit(c),
        CharClass::NamePart => is_name_part(c),
        CharClass::InString => c != '"',
        CharClass::InComment => c != '\n',
    }
}

/// Where the longest run of characters of `class` that starts at `from`
/// ends: the first position from `from` on that holds no character of the
/// class.
pub open spec fn run_end(src: Seq<char>, class: CharClass, from: int) -> int
    decreases src.len() - from,
{
    if 0 <= from < src.len() && in_class(class, src[from]) {
        run_end(src, class, from + 1)
    } else {
        from
    }
}

/// The token that the punctuation character `c` is by itself.
pub open spec fn punctuation(c: char) -> Option<KindView> {
    if c == '(' {
        Some(KindView::LeftParen)
    } else if c == ')' {
        Some(KindView::RightParen)
    } else if c == '{' {
        Some(KindView::LeftBrace)
    } else if c == '}' {
        Some(KindView::RightBrace)
    } else if c == ',' {
        Some(KindView::Comma)
    } else if c == '.' {
        Some(KindView::Dot)
    } else if c == '-' {
        Some(KindView::Minus)
    } else if c == '+' {
        Some(KindView::Plus)
    } else if c == ';' {
        Some(KindView::SemiColon)
    } else if c == '*' {
        Some(KindView::Star)
    } else {
        None
    }
}

/// For an operator character that `=` can follow: the token that it is
/// alone, and the token that it is together with the `=`.
pub open spec fn operator(c: char) -> Option<(KindView, KindView)> {
    if c == '!' {
        Some((KindView::Bang, KindView::BangEqual))
    } else if c == '=' {
        Some((KindView::Equal, KindView::EqualEqual))
    } else if c == '<' {
        Some((KindView::Less, KindView::LessEqual))
    } else if c == '>' {
        Some((KindView::Greater, KindView::GreaterEqual))
    } else {
        None
    }
}

/// The reserved word that `name` is, or `Identifier` where it is none.
pub open spec fn word_kind(name: Seq<char>) -> KindView {
    if name == "and"@ {
        KindView::And
    } else if name == "class"@ {
        KindView::Class
    } else if name == "else"@ {
        KindView::Else
    } else if name == "false"@ {
        KindView::False
    } else if name == "for"@ {
        KindView::For
    } else if name == "fun"@ {
        KindView::Fun
    } else if name == "if"@ {
        KindView::If
    } else if name == "nil"@ {
        KindView::Nil
    } else if name == "or"@ {
        KindView::Or
    } else if name == "print"@ {
        KindView::Print
    } else if name == "return"@ {
        KindView::Return
    } else if name == "super"@ {
        KindView::Super
    } else if name == "this"@ {
        KindView::This
    } else if name == "true"@ {
        KindView::True
    } else if name == "var"@ {
        KindView::Var
    } else if name == "while"@ {
        KindView::While
    } else {
        KindView::Identifier
    }
}

/// The value of the decimal digit `c`.
pub open spec fn digit_value(c: char) -> u8 {
    (c as int - '0' as int) as u8
}

/// The values of the decimal digits `src[from..to]`.
pub open spec fn digits(src: Seq<char>, from: int, to: int) -> Seq<u8> {
    src.subrange(from, to).map_values(|c: char| digit_value(c))
}

/// What stands at a position of the source.
pub enum Found {
    /// A token of this kind.
    Token(KindView),
    /// Blank space or a comment.
    Nothing,
    /// No token, for this reason.
    Error(LexicalError),
}

/// What stands at a position of the source, and the position just after it.
pub struct Lexeme {
    pub found: Found,
    pub end: int,
}

/// The string literal whose opening quote is at `pos`. It runs to the next
/// quote; its payload is what stands between the two. With no quote left in
/// the input, the rest of the input is lost to the error.
pub open spec fn string_at(src: Seq<char>, pos: int) -> Lexeme {
    let close = run_end(src, CharClass::InString, pos + 1);
    if close < src.len() {
        Lexeme {
            found: Found::Token(KindView::String(src.subrange(pos + 1, close))),
            end: close + 1,
        }
    } else {
        Lexeme { found: Found::Error(LexicalError::UnterminatedString), end: close }
    }
}

/// Whether `src` holds a digit at index `i`.
pub open spec fn digit_at(src: Seq<char>, i: int) -> bool {
    0 <= i < src.len() && is_digit(src[i])
}

/// The number literal that starts with the digit at `pos`: the longest run
/// of digits, and then, only where a point and at least one digit follow,
/// the point and the longest run of digits after it.
pub open spec fn number_at(src: Seq<char>, pos: int) -> Lexeme {
    let whole_end = run_end(src, CharClass::Digit, pos);
    if char_at(src, whole_end) == Some('.') && digit_at(src, whole_end + 1) {
        let end = run_end(src, CharClass::Digit, whole_end + 1);
        Lexeme {
            found: Found::Token(
                KindView::Number(
                    DecimalView {
                        whole: digits(src, pos, whole_end),
                        fraction: digits(src, whole_end + 1, end),
                    },
                ),
            ),
            end,
        }
    } else {
        Lexeme {
            found: Found::Token(
                KindView::Number(
                    DecimalView { whole: digits(src, pos, whole_end), fraction: Seq::empty() },
                ),
            ),
            end: whole_end,
        }
    }
}

/// The name that starts at `pos`: the start character and the longest run
/// of name characters after it, a reserved word or an identifier.
pub open spec fn name_at(src: Seq<char>, pos: int) -> Lexeme {
    let end = run_end(src, CharClass::NamePart, pos + 1);
    Lexeme { found: Found::Token(word_kind(src.subrange(pos, end))), end }
}

/// The lexeme that starts at `pos`, a position inside `src`.
pub open spec fn lexeme_at(src: Seq<char>, pos: int) -> Lexeme
    recommends
        0 <= pos < src.len(),
{
    let c = src[pos];
    if let Some(kind) = punctuation(c) {
        Lexeme { found: Found::Token(kind), end: pos + 1 }
    } else if let Some((alone, with_equal)) = operator(c) {
        if char_at(src, pos + 1) == Some('=') {
            Lexeme { found: Found::Token(with_equal), end: pos + 2 }
        } else {
            Lexeme { found: Found::Token(alone), end: pos + 1 }
        }
    } else if c == '/' {
        if char_at(src, pos + 1) == Some('/') {
            Lexeme { found: Found::Nothing, end: run_end(src, CharClass::InComment, pos + 2) }
        } else {
            Lexeme { found: Found::Token(KindView::Slash), end: pos + 1 }
        }
    } else if is_blank(c) {
        Lexeme { found: Found::Nothing, end: pos + 1 }
    } else if c == '"' {
        string_at(src, pos)
    } else if is_digit(c) {
        number_at(src, pos)
    } else if is_name_start(c) {
        name_at(src, pos)
    } else {
        Lexeme { found: Found::Error(LexicalError::UnexpectedCharacter), end: pos + 1 }
    }
}

/// The tokens that `lexeme`, found at `pos`, gives: one or none. A token
/// carries the text that it spans and the line that it starts on.
pub open spec fn tokens_of(src: Seq<char>, pos: int, lexeme: Lexeme) -> Seq<TokenView> {
    match lexeme.found {
        Found::Token(kind) => seq![
            TokenView { kind, lexeme: src.subrange(pos, lexeme.end), line: line_at(src, pos) },
        ],
        _ => Seq::empty(),
    }
}

/// The errors that `lexeme` gives: one or none. An error carries the line
/// on which the lexeme ends.
pub open spec fn errors_of(src: Seq<char>, lexeme: Lexeme) -> Seq<DiagnosticView> {
    match lexeme.found {
        Found::Error(error) => seq![DiagnosticView { line: line_at(src, lexeme.end), error }],
        _ => Seq::empty(),
    }
}

/// The token that ends every scan: no text, on the last line of the source.
pub open spec fn end_token(src: Seq<char>) -> TokenView {
    TokenView { kind: KindView::Eof, lexeme: Seq::empty(), line: line_at(src, src.len() as int) }
}

/// A run from a position inside the source stays inside the source.
pub proof fn lemma_run_end_bounds(src: Seq<char>, class: CharClass, from: int)
    requires
        0 <= from <= src.len(),
    ensures
        from <= run_end(src, class, from) <= src.len(),
    decreases src.len() - from,
{
    if from < src.len() && in_class(class, src[from]) {
        lemma_run_end_bounds(src, class, from + 1);
    }
}

/// Every lexeme holds at least one character and ends inside the source.
pub proof fn lemma_lexeme_bounds(src: Seq<char>, pos: int)
    requires
        0 <= pos < src.len(),
    ensures
        pos < lexeme_at(src, pos).end <= src.len(),
{
    lemma_run_end_bounds(src, CharClass::InString, pos + 1);
    lemma_run_end_bounds(src, CharClass::NamePart, pos + 1);
    if pos + 2 <= src.len() {
        lemma_run_end_bounds(src, CharClass::InComment, pos + 2);
    }
    if is_digit(src[pos]) {
        lemma_run_end_bounds(src, CharClass::Digit, pos + 1);
        let whole_end = run_end(src, CharClass::Digit, pos);
        if whole_end + 1 <= src.len() {
            lemma_run_end_bounds(src, CharClass::Digit, whole_end + 1);
        }
    }
}

/// The tokens of `src` from position `pos` on, the closing `Eof` included.
pub open spec fn tokens_from(src: Seq<char>, pos: int) -> Seq<TokenView>
    decreases src.len() - pos,
    via tokens_from_decreases
{
    if 0 <= pos < src.len() {
        tokens_of(src, pos, lexeme_at(src, pos)) + tokens_from(src, lexeme_at(src, pos).end)
    } else {
        seq![end_token(src)]
    }
}

#[via_fn]
proof fn tokens_from_decreases(src: Seq<char>, pos: int) {
    if 0 <= pos < src.len() {
        lemma_lexeme_bounds(src, pos);
    }
}

/// The lexical errors of `src` from position `pos` on.
pub open spec fn errors_from(src: Seq<char>, pos: int) -> Seq<DiagnosticView>
    decreases src.len() - pos,
    via errors_from_decreases
{
    if 0 <= pos < src.len() {
        errors_of(src, lexeme_at(src, pos)) + errors_from(src, lexeme_at(src, pos).end)
    } else {
        Seq::empty()
    }
}

#[via_fn]
proof fn errors_from_decreases(src: Seq<char>, pos: int) {
    if 0 <= pos < src.len() {
        lemma_lexeme_bounds(src, pos);
    }
}

/// Where the last lexeme of `src` from position `pos` on starts; `start`
/// where there is none.
pub open spec fn last_start(src: Seq<char>, pos: int, start: int) -> int
    decreases src.len() - pos,
    via last_start_decreases
{
    if 0 <= pos < src.len() {
        last_start(src, lexeme_at(src, pos).end, pos)
    } else {
        start
    }
}

#[via_fn]
proof fn last_start_decreases(src: Seq<char>, pos: int, start: int) {
    if 0 <= pos < src.len() {
        lemma_lexeme_bounds(src, pos);
    }
}

/// The tokens of `src`.
pub open spec fn scan(src: Seq<char>) -> Seq<TokenView> {
    tokens_from(src, 0)
}

/// The lexical errors of `src`.
pub open spec fn scan_errors(src: Seq<char>) -> Seq<DiagnosticView> {
    errors_from(src, 0)
}

/// A position's line is at most one more than the position.
pub proof fn lemma_line_bound(src: Seq<char>, pos: int)
    requires
        0 <= pos,
    ensures
        line_at(src, pos) <= pos + 1,
    decreases pos,
{
    if pos > 0 {
        lemma_line_bound(src, pos - 1);
    }
}

/// Every character of a run belongs to the run's class.
pub proof fn lemma_run_in_class(src: Seq<char>, class: CharClass, from: int, i: int)
    requires
        0 <= from <= i < run_end(src, class, from),
    ensures
        i < src.len(),
        in_class(class, src[i]),
    decreases i - from,
{
    if from < i {
        lemma_run_in_class(src, class, from + 1, i);
    }
}

/// The line of a position is at least the line of any position before it.
pub proof fn lemma_line_ascends(src: Seq<char>, from: int, to: int)
    requires
        from <= to,
    ensures
        line_at(src, from) <= line_at(src, to),
    decreases to - from,
{
    if from < to {
        lemma_line_ascends(src, from, to - 1);
    }
}

/// A run stops at a character that does not belong to its class, or at the
/// end of the source.
pub proof fn lemma_run_stops(src: Seq<char>, class: CharClass, from: int)
    requires
        0 <= from <= src.len(),
    ensures
        run_end(src, class, from) < src.len() ==> !in_class(
            class,
            src[run_end(src, class, from)],
        ),
    decreases src.len() - from,
{
    if from < src.len() && in_class(class, src[from]) {
        lemma_run_stops(src, class, from + 1);
    }
}

/// A run over characters that all belong to its class, up to one that does
/// not or to the end of the source, ends there.
pub proof fn lemma_run_to(src: Seq<char>, class: CharClass, from: int, to: int)
    requires
        0 <= from <= to <= src.len(),
        forall|i: int| from <= i < to ==> in_class(class, #[trigger] src[i]),
        to < src.len() ==> !in_class(class, src[to]),
    ensures
        run_end(src, class, from) == to,
    decreases to - from,
{
    if from < to {
        lemma_run_to(src, class, from + 1, to);
    }
}

/// Whatever the source holds, its tokens end with an `Eof` on the last line
/// of the source, and hold no other `Eof`.
pub proof fn lemma_eof_closes(src: Seq<char>, pos: int)
    ensures
        ({
            let tokens = tokens_from(src, pos);
            &&& tokens.len() > 0
            &&& tokens.last() == end_token(src)
            &&& forall|i: int| 0 <= i < tokens.len() - 1 ==> !((#[trigger] tokens[i]).kind is Eof)
        }),
    decreases src.len() - pos,
{
    if 0 <= pos < src.len() {
        lemma_lexeme_bounds(src, pos);
        lemma_eof_closes(src, lexeme_at(src, pos).end);
    }
}

/// The lines of the tokens never go down: each token is on the line of the
/// position that it was read from or on a later one, and no token is on an
/// earlier line than the token before it.
pub proof fn lemma_lines_ascend(src: Seq<char>, pos: int)
    requires
        0 <= pos <= src.len(),
    ensures
        ({
            let tokens = tokens_from(src, pos);
            &&& forall|i: int|
                0 <= i < tokens.len() ==> line_at(src, pos) <= (#[trigger] tokens[i]).line
            &&& forall|i: int, j: int|
                0 <= i <= j < tokens.len() ==> (#[trigger] tokens[i]).line
                    <= (#[trigger] tokens[j]).line
        }),
    decreases src.len() - pos,
{
    if pos < src.len() {
        let end = lexeme_at(src, pos).end;
        lemma_lexeme_bounds(src, pos);
        lemma_lines_ascend(src, end);
        lemma_line_ascends(src, pos, end);
    } else {
        lemma_line_ascends(src, pos, src.len() as int);
    }
}

/// Whether `text` is a part of `src` that lies at or after `pos`.
pub open spec fn is_part_from(text: Seq<char>, src: Seq<char>, pos: int) -> bool {
    exists|from: int, to: int|
        pos <= from <= to <= src.len() && text == #[trigger] src.subrange(from, to)
}

/// The lexeme of every token is a part of the source, as it stands there.
pub proof fn lemma_lexemes_are_source_text(src: Seq<char>, pos: int)
    requires
        0 <= pos <= src.len(),
    ensures
        forall|i: int|
            0 <= i < tokens_from(src, pos).len() ==> is_part_from(
                (#[trigger] tokens_from(src, pos)[i]).lexeme,
                src,
                pos,
            ),
    decreases src.len() - pos,
{
    let tokens = tokens_from(src, pos);
    if pos < src.len() {
        let end = lexeme_at(src, pos).end;
        let first = tokens_of(src, pos, lexeme_at(src, pos));
        lemma_lexeme_bounds(src, pos);
        lemma_lexemes_are_source_text(src, end);
        assert forall|i: int| 0 <= i < tokens.len() implies is_part_from(
            (#[trigger] tokens[i]).lexeme,
            src,
            pos,
        ) by {
            if i < first.len() {
                assert(tokens[i].lexeme == src.subrange(pos, end));
            } else {
                let text = tokens_from(src, end)[i - first.len()].lexeme;
                assert(tokens[i].lexeme == text);
                assert(is_part_from(text, src, end));
                let (from, to) = choose|from: int, to: int|
                    end <= from <= to <= src.len() && text == #[trigger] src.subrange(from, to);
                assert(text == src.subrange(from, to));
            }
        }
    } else {
        assert(tokens[0].lexeme == src.subrange(pos, pos));
    }
}

/// The payload of every number token is a numeral: at least one digit
/// before the point, and every digit between 0 and 9.
pub proof fn lemma_numbers_are_numerals(src: Seq<char>, pos: int)
    requires
        0 <= pos <= src.len(),
    ensures
        forall|i: int|
            0 <= i < tokens_from(src, pos).len() ==> ((#[trigger] tokens_from(
                src,
                pos,
            )[i]).kind matches KindView::Number(value) ==> value.wf()),
    decreases src.len() - pos,
{
    if pos < src.len() {
        lemma_lexeme_bounds(src, pos);
        lemma_numbers_are_numerals(src, lexeme_at(src, pos).end);
        if is_digit(src[pos]) {
            lemma_number_is_numeral(src, pos);
        }
    }
}

/// The payload of a number literal is a numeral.
pub proof fn lemma_number_is_numeral(src: Seq<char>, pos: int)
    requires
        0 <= pos < src.len(),
        is_digit(src[pos]),
    ensures
        number_at(src, pos).found matches Found::Token(KindView::Number(value)) && value.wf(),
{
    let whole_end = run_end(src, CharClass::Digit, pos);
    lemma_run_end_bounds(src, CharClass::Digit, pos + 1);
    assert forall|k: int| 0 <= k < whole_end - pos implies #[trigger] digits(
        src,
        pos,
        whole_end,
    )[k] <= 9 by {
        lemma_run_in_class(src, CharClass::Digit, pos, pos + k);
    }
    if char_at(src, whole_end) == Some('.') && digit_at(src, whole_end + 1) {
        let end = run_end(src, CharClass::Digit, whole_end + 1);
        lemma_run_end_bounds(src, CharClass::Digit, whole_end + 1);
        assert forall|k: int| 0 <= k < end - (whole_end + 1) implies #[trigger] digits(
            src,
            whole_end + 1,
            end,
        )[k] <= 9 by {
            lemma_run_in_class(src, CharClass::Digit, whole_end + 1, whole_end + 1 + k);
        }
    }
}

/// Whether the lexeme at `pos` is a token of one character.
pub open spec fn is_single_character_token(src: Seq<char>, pos: int) -> bool {
    lexeme_at(src, pos).found is Token && lexeme_at(src, pos).end == pos + 1
}

/// The number of characters of `src` from `pos` on that are not blank.
pub open spec fn count_not_blank(src: Seq<char>, pos: int) -> nat
    decreases src.len() - pos,
{
    if 0 <= pos < src.len() {
        if is_blank(src[pos]) {
            count_not_blank(src, pos + 1)
        } else {
            1 + count_not_blank(src, pos + 1)
        }
    } else {
        0
    }
}

/// In a source that holds nothing but tokens of one character and blank
/// space, the part from `pos` on gives one token for each of its characters
/// that is not blank, then the `Eof`, and no error.
pub proof fn lemma_single_character_tokens_from(src: Seq<char>, pos: int)
    requires
        0 <= pos <= src.len(),
        forall|i: int|
            0 <= i < src.len() ==> is_blank(#[trigger] src[i]) || is_single_character_token(src, i),
    ensures
        tokens_from(src, pos).len() == count_not_blank(src, pos) + 1,
        tokens_from(src, pos).last().kind is Eof,
        errors_from(src, pos).len() == 0,
    decreases src.len() - pos,
{
    if pos < src.len() {
        assert(is_blank(src[pos]) || is_single_character_token(src, pos));
        lemma_single_character_tokens_from(src, pos + 1);
    }
}

/// A source that holds nothing but tokens of one character and blank space
/// gives one token for each of its characters that is not blank, then the
/// `Eof`, and no error.
pub proof fn lemma_single_character_tokens(src: Seq<char>)
    requires
        forall|i: int|
            0 <= i < src.len() ==> is_blank(#[trigger] src[i]) || is_single_character_token(src, i),
    ensures
        scan(src).len() == count_not_blank(src, 0) + 1,
        scan(src).last().kind is Eof,
        scan_errors(src).len() == 0,
{
    lemma_single_character_tokens_from(src, 0);
}

/// A string literal that no quote closes gives no token: all that the rest
/// of the source gives is the `Eof` and one error, on the last line.
pub proof fn lemma_unterminated_string(src: Seq<char>, pos: int)
    requires
        0 <= pos < src.len(),
        src[pos] == '"',
        forall|i: int| pos < i < src.len() ==> #[trigger] src[i] != '"',
    ensures
        tokens_from(src, pos) == seq![end_token(src)],
        errors_from(src, pos) == seq![
            DiagnosticView {
                line: line_at(src, src.len() as int),
                error: LexicalError::UnterminatedString,
            },
        ],
{
    lemma_run_to(src, CharClass::InString, pos + 1, src.len() as int);
    assert(lexeme_at(src, pos) == string_at(src, pos));
    assert(tokens_from(src, src.len() as int) == seq![end_token(src)]);
    assert(errors_from(src, src.len() as int) == Seq::<DiagnosticView>::empty());
    assert(tokens_from(src, pos) =~= seq![end_token(src)]);
    assert(errors_from(src, pos) =~= seq![
        DiagnosticView {
            line: line_at(src, src.len() as int),
            error: LexicalError::UnterminatedString,
        },
    ]);
}

} // verus!
