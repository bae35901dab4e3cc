//! The lexical grammar, stated over byte sequences.
//!
//! `step` says what one lexeme at a given place is: a token, nothing (white
//! space and comments), or a fault, together with the place and the line
//! after it. `tokens_from` and `faults_from` follow the steps to the end of
//! the source.

use vstd::prelude::*;
use vstd::utf8::*;
use crate::errors::TokenError;
use crate::text::ascii_text;
use crate::token::LiteralView;
use crate::token::TokenView;
use crate::token_type::TokenType;

verus! {

pub open spec fn is_digit(c: char) -> bool {
    '0' <= c <= '9'
}

pub open spec fn is_alpha(c: char) -> bool {
    ('a' <= c <= 'z') || ('A' <= c <= 'Z') || c == '_'
}

pub open spec fn is_alpha_numeric(c: char) -> bool {
    is_alpha(c) || is_digit(c)
}

/// The byte at `i` as a character; the NUL character where the source has
/// no byte at `i`.
pub open spec fn char_at(src: Seq<u8>, i: int) -> char {
    if 0 <= i < src.len() {
        src[i] as char
    } else {
        '\0'
    }
}

/// The reserved word that the text is, if it is one.
pub open spec fn keyword(text: Seq<char>) -> Option<TokenType> {
    if text == seq!['a', 'n', 'd'] {
        Some(TokenType::And)
    } else if text == seq!['c', 'l', 'a', 's', 's'] {
        Some(TokenType::Class)
    } else if text == seq!['e', 'l', 's', 'e'] {
        Some(TokenType::Else)
    } else if text == seq!['f', 'a', 'l', 's', 'e'] {
        Some(TokenType::False)
    } else if text == seq!['f', 'u', 'n'] {
        Some(TokenType::Fun)
    } else if text == seq!['f', 'o', 'r'] {
        Some(TokenType::For)
    } else if text == seq!['i', 'f'] {
        Some(TokenType::If)
    } else if text == seq!['n', 'i', 'l'] {
        Some(TokenType::Nil)
    } else if text == seq!['o', 'r'] {
        Some(TokenType::Or)
    } else if text == seq!['p', 'r', 'i', 'n', 't'] {
        Some(TokenType::Print)
    } else if text == seq!['r', 'e', 't', 'u', 'r', 'n'] {
        Some(TokenType::Return)
    } else if text == seq!['s', 'u', 'p', 'e', 'r'] {
        Some(TokenType::Super)
    } else if text == seq!['t', 'h', 'i', 's'] {
        Some(TokenType::This)
    } else if text == seq!['t', 'r', 'u', 'e'] {
        Some(TokenType::True)
    } else if text == seq!['v', 'a', 'r'] {
        Some(TokenType::Var)
    } else if text == seq!['w', 'h', 'i', 'l', 'e'] {
        Some(TokenType::While)
    } else {
        None
    }
}

/// The category of a word: that of the reserved word it is, else
/// `Identifier`.
pub open spec fn word_type(text: Seq<char>) -> TokenType {
    match keyword(text) {
        Some(t) => t,
        None => TokenType::Identifier,
    }
}

/// The token that a character is by itself, whatever follows it.
pub open spec fn punctuation(c: char) -> Option<TokenType> {
    if c == '(' {
        Some(TokenType::LeftParen)
    } else if c == ')' {
        Some(TokenType::RightParen)
    } else if c == '{' {
        Some(TokenType::LeftBrace)
    } else if c == '}' {
        Some(TokenType::RightBrace)
    } else if c == ',' {
        Some(TokenType::Comma)
    } else if c == '.' {
        Some(TokenType::Dot)
    } else if c == '-' {
        Some(TokenType::Minus)
    } else if c == '+' {
        Some(TokenType::Plus)
    } else if c == ';' {
        Some(TokenType::Semicolon)
    } else if c == '*' {
        Some(TokenType::Star)
    } else {
        None
    }
}

/// For a character that an `=` may follow: the token it is alone, and the
/// token it is together with the `=`.
pub open spec fn operator_pair(c: char) -> Option<(TokenType, TokenType)> {
    if c == '!' {
        Some((TokenType::Bang, TokenType::BangEqual))
    } else if c == '=' {
        Some((TokenType::Equal, TokenType::EqualEqual))
    } else if c == '<' {
        Some((TokenType::Less, TokenType::LessEqual))
    } else if c == '>' {
        Some((TokenType::Greater, TokenType::GreaterEqual))
    } else {
        None
    }
}

/// The kinds of runs that a lexeme is made of.
pub enum Run {
    /// Decimal digits.
    Digits,
    /// Letters, digits and underscores.
    Word,
    /// The rest of a line, up to the newline.
    Line,
    /// The inside of a string literal, up to the closing quote.
    Text,
}

/// Whether the character belongs to a run of the kind.
pub open spec fn continues(run: Run, c: char) -> bool {
    match run {
        Run::Digits => is_digit(c),
        Run::Word => is_alpha_numeric(c),
        Run::Line => c != '\n',
        Run::Text => c != '"',
    }
}

/// The end of the longest run of the kind that begins at `i`: the first
/// place at or after `i` where the source ends or the run does not go on.
pub open spec fn run_end(src: Seq<u8>, i: int, run: Run) -> int
    decreases src.len() - i,
{
    if 0 <= i < src.len() && continues(run, src[i] as char) {
        run_end(src, i + 1, run)
    } else {
        i
    }
}

/// The first place at or after `i` where `*/` stands; the end of the source
/// where there is none.
pub open spec fn comment_end(src: Seq<u8>, i: int) -> int
    decreases src.len() - i,
{
    if 0 <= i < src.len() && !(char_at(src, i) == '*' && char_at(src, i + 1) == '/') {
        comment_end(src, i + 1)
    } else {
        i
    }
}

/// The number of newlines in `src[from..to]`.
pub open spec fn newlines(src: Seq<u8>, from: int, to: int) -> int
    decreases to - from,
{
    if from < to {
        newlines(src, from, to - 1) + if char_at(src, to - 1) == '\n' {
            1int
        } else {
            0int
        }
    } else {
        0
    }
}

/// What one lexeme contributes.
pub enum Outcome {
    /// A token of this category.
    Token(TokenType),
    /// White space or a comment.
    Nothing,
    /// A fault; the malformed lexeme gives no token.
    Fault(TokenError),
}

/// One lexeme: what it contributes, where the next one begins, and the line
/// there.
pub struct Step {
    pub outcome: Outcome,
    pub next: int,
    pub line: int,
}

/// The block comment whose `/*` stands at `start`: it runs through the next
/// `*/`, and is a fault where the source ends before one.
pub open spec fn block_comment_step(src: Seq<u8>, start: int, line: int) -> Step {
    let close = comment_end(src, start + 2);
    let last = line + newlines(src, start + 2, close);
    if close >= src.len() {
        Step {
            outcome: Outcome::Fault(TokenError::UnterminatedBlockComment(last as u64)),
            next: close,
            line: last,
        }
    } else {
        Step { outcome: Outcome::Nothing, next: close + 2, line: last }
    }
}

/// The lexeme that begins with `/` at `start`: a line comment, which runs
/// up to the end of the line, a block comment, or the token `/`.
pub open spec fn slash_step(src: Seq<u8>, start: int, line: int) -> Step {
    let second = char_at(src, start + 1);
    if second == '/' {
        Step { outcome: Outcome::Nothing, next: run_end(src, start + 2, Run::Line), line }
    } else if second == '*' {
        block_comment_step(src, start, line)
    } else {
        Step { outcome: Outcome::Token(TokenType::Slash), next: start + 1, line }
    }
}

/// The string literal whose opening quote stands at `start`.
pub open spec fn string_step(src: Seq<u8>, start: int, line: int) -> Step {
    let close = run_end(src, start + 1, Run::Text);
    let last = line + newlines(src, start + 1, close);
    if close >= src.len() {
        Step {
            outcome: Outcome::Fault(TokenError::UnterminatedString(last as u64)),
            next: close,
            line: last,
        }
    } else {
        Step { outcome: Outcome::Token(TokenType::String), next: close + 1, line: last }
    }
}

/// The end of the number literal whose first digit stands at `start`: the
/// digits, and a fraction where a dot and at least one digit follow them.
pub open spec fn number_end(src: Seq<u8>, start: int) -> int {
    let whole = run_end(src, start + 1, Run::Digits);
    if char_at(src, whole) == '.' && is_digit(char_at(src, whole + 1)) {
        run_end(src, whole + 1, Run::Digits)
    } else {
        whole
    }
}

/// The lexeme that begins at `start`, with `line` the line there.
pub open spec fn step(src: Seq<u8>, start: int, line: int) -> Step
    recommends
        0 <= start < src.len(),
{
    let c = char_at(src, start);
    if let Some(alone) = punctuation(c) {
        Step { outcome: Outcome::Token(alone), next: start + 1, line }
    } else if let Some((alone, with_equal)) = operator_pair(c) {
        if char_at(src, start + 1) == '=' {
            Step { outcome: Outcome::Token(with_equal), next: start + 2, line }
        } else {
            Step { outcome: Outcome::Token(alone), next: start + 1, line }
        }
    } else if c == '/' {
        slash_step(src, start, line)
    } else if c == ' ' || c == '\r' || c == '\t' {
        Step { outcome: Outcome::Nothing, next: start + 1, line }
    } else if c == '\n' {
        Step { outcome: Outcome::Nothing, next: start + 1, line: line + 1 }
    } else if c == '"' {
        string_step(src, start, line)
    } else if is_digit(c) {
        Step { outcome: Outcome::Token(TokenType::Number), next: number_end(src, start), line }
    } else if is_alpha(c) {
        let end = run_end(src, start + 1, Run::Word);
        Step {
            outcome: Outcome::Token(word_type(ascii_text(src.subrange(start, end)))),
            next: end,
            line,
        }
    } else {
        Step {
            outcome: Outcome::Fault(TokenError::InvalidToken(line as u64, c)),
            next: start + 1,
            line,
        }
    }
}

/// The value that a token of the category carries, given its lexeme and,
/// for a string, the text between its quotes.
pub open spec fn literal_of(token_type: TokenType, lexeme: Seq<char>, inner: Seq<char>) -> Option<
    LiteralView,
> {
    match token_type {
        TokenType::String => Some(LiteralView::Str(inner)),
        TokenType::Number => Some(LiteralView::Number(lexeme)),
        TokenType::Identifier => Some(LiteralView::Identifier(lexeme)),
        _ => None,
    }
}

/// The token of category `token_type` whose lexeme is `src[start..end]`, on
/// `line`.
pub open spec fn token_at(src: Seq<u8>, start: int, end: int, token_type: TokenType, line: int)
    -> TokenView {
    let lexeme = decode_utf8(src.subrange(start, end));
    let inner = decode_utf8(src.subrange(start + 1, end - 1));
    TokenView {
        token_type,
        lexeme,
        literal: literal_of(token_type, lexeme, inner),
        line: line as u64,
    }
}

/// The end-of-input token on `line`.
pub open spec fn eof_token(line: int) -> TokenView {
    TokenView {
        token_type: TokenType::Eof,
        lexeme: Seq::empty(),
        literal: None,
        line: line as u64,
    }
}

/// Whether the lexeme that `s` describes, beginning at `start`, can be
/// turned into text: the bytes between the quotes of a string literal have
/// to be UTF-8. Every other token is ASCII.
pub open spec fn step_decodable(src: Seq<u8>, start: int, s: Step) -> bool {
    s.outcome == Outcome::Token(TokenType::String) ==> valid_utf8(
        src.subrange(start + 1, s.next - 1),
    )
}

/// The tokens of `src` from `pos` on, where `line` is the line at `pos`.
pub open spec fn tokens_from(src: Seq<u8>, pos: int, line: int) -> Seq<TokenView>
    decreases src.len() - pos,
    via tokens_from_decreases
{
    if 0 <= pos < src.len() {
        let s = step(src, pos, line);
        let rest = tokens_from(src, s.next, s.line);
        match s.outcome {
            Outcome::Token(t) => seq![token_at(src, pos, s.next, t, s.line)] + rest,
            _ => rest,
        }
    } else {
        Seq::empty()
    }
}

#[via_fn]
proof fn tokens_from_decreases(src: Seq<u8>, pos: int, line: int) {
    if 0 <= pos < src.len() {
        lemma_step_advances(src, pos, line);
    }
}

/// The faults of `src` from `pos` on, where `line` is the line at `pos`.
pub open spec fn faults_from(src: Seq<u8>, pos: int, line: int) -> Seq<TokenError>
    decreases src.len() - pos,
    via faults_from_decreases
{
    if 0 <= pos < src.len() {
        let s = step(src, pos, line);
        let rest = faults_from(src, s.next, s.line);
        match s.outcome {
            Outcome::Fault(e) => seq![e] + rest,
            _ => rest,
        }
    } else {
        Seq::empty()
    }
}

#[via_fn]
proof fn faults_from_decreases(src: Seq<u8>, pos: int, line: int) {
    if 0 <= pos < src.len() {
        lemma_step_advances(src, pos, line);
    }
}

/// The line at the end of `src`, where `line` is the line at `pos`.
pub open spec fn end_line(src: Seq<u8>, pos: int, line: int) -> int
    decreases src.len() - pos,
    via end_line_decreases
{
    if 0 <= pos < src.len() {
        let s = step(src, pos, line);
        end_line(src, s.next, s.line)
    } else {
        line
    }
}

#[via_fn]
proof fn end_line_decreases(src: Seq<u8>, pos: int, line: int) {
    if 0 <= pos < src.len() {
        lemma_step_advances(src, pos, line);
    }
}

/// Whether every string literal of `src` from `pos` on can be turned into
/// text.
pub open spec fn decodable_from(src: Seq<u8>, pos: int, line: int) -> bool
    decreases src.len() - pos,
    via decodable_from_decreases
{
    if 0 <= pos < src.len() {
        let s = step(src, pos, line);
        step_decodable(src, pos, s) && decodable_from(src, s.next, s.line)
    } else {
        true
    }
}

#[via_fn]
proof fn decodable_from_decreases(src: Seq<u8>, pos: int, line: int) {
    if 0 <= pos < src.len() {
        lemma_step_advances(src, pos, line);
    }
}

/// The tokens that scanning `src` gives: those of its lexemes, then the
/// end-of-input token.
pub open spec fn scanned_tokens(src: Seq<u8>) -> Seq<TokenView> {
    tokens_from(src, 0, 1).push(eof_token(end_line(src, 0, 1)))
}

/// The faults that scanning `src` meets, in order.
pub open spec fn scanned_faults(src: Seq<u8>) -> Seq<TokenError> {
    faults_from(src, 0, 1)
}

/// Whether every string literal of `src` can be turned into text.
pub open spec fn decodable(src: Seq<u8>) -> bool {
    decodable_from(src, 0, 1)
}

/// A run ends at or after its beginning and within the source; every
/// character before its end belongs to it, and the character at its end, if
/// there is one, does not.
pub proof fn lemma_run_end(src: Seq<u8>, i: int, run: Run)
    requires
        0 <= i <= src.len(),
    ensures
        i <= run_end(src, i, run) <= src.len(),
        forall|k: int| i <= k < run_end(src, i, run) ==> continues(run, #[trigger] src[k] as char),
        run_end(src, i, run) < src.len() ==> !continues(
            run,
            src[run_end(src, i, run)] as char,
        ),
    decreases src.len() - i,
{
    if i < src.len() && continues(run, src[i] as char) {
        lemma_run_end(src, i + 1, run);
    }
}

/// A comment's end lies at or after its beginning and within the source;
/// where it lies before the end of the source, `*/` stands there.
pub proof fn lemma_comment_end(src: Seq<u8>, i: int)
    requires
        0 <= i <= src.len(),
    ensures
        i <= comment_end(src, i) <= src.len(),
        comment_end(src, i) < src.len() ==> char_at(src, comment_end(src, i)) == '*' && char_at(
            src,
            comment_end(src, i) + 1,
        ) == '/',
        comment_end(src, i) < src.len() ==> comment_end(src, i) + 2 <= src.len(),
    decreases src.len() - i,
{
    if i < src.len() && !(char_at(src, i) == '*' && char_at(src, i + 1) == '/') {
        lemma_comment_end(src, i + 1);
    }
}

/// A range holds no more newlines than bytes.
pub proof fn lemma_newlines_bounds(src: Seq<u8>, from: int, to: int)
    ensures
        0 <= newlines(src, from, to),
        from <= to ==> newlines(src, from, to) <= to - from,
        from >= to ==> newlines(src, from, to) == 0,
    decreases to - from,
{
    if from < to {
        lemma_newlines_bounds(src, from, to - 1);
    }
}

/// Every lexeme takes at least one byte and ends within the source; the
/// line does not go down, and goes up by no more than the bytes taken.
pub proof fn lemma_step_advances(src: Seq<u8>, start: int, line: int)
    requires
        0 <= start < src.len(),
    ensures
        start < step(src, start, line).next <= src.len(),
        line <= step(src, start, line).line,
        step(src, start, line).line - line <= step(src, start, line).next - start,
{
    let c = char_at(src, start);
    if punctuation(c) is Some {
    } else if operator_pair(c) is Some {
    } else if c == '/' {
        let second = char_at(src, start + 1);
        if second == '/' {
            lemma_run_end(src, start + 2, Run::Line);
        } else if second == '*' {
            lemma_comment_end(src, start + 2);
            lemma_newlines_bounds(src, start + 2, comment_end(src, start + 2));
        }
    } else if c == '"' {
        lemma_run_end(src, start + 1, Run::Text);
        lemma_newlines_bounds(src, start + 1, run_end(src, start + 1, Run::Text));
    } else if is_digit(c) {
        lemma_run_end(src, start + 1, Run::Digits);
        let whole = run_end(src, start + 1, Run::Digits);
        if whole + 1 <= src.len() {
            lemma_run_end(src, whole + 1, Run::Digits);
        }
    } else if is_alpha(c) {
        lemma_run_end(src, start + 1, Run::Word);
    }
}

} // verus!
