//! What holds of the scanner's tokens, whatever the source.
//!
//! The laws are stated over `scanned_tokens`, `scanned_faults` and
//! `decodable`, in which the contracts of the scanner are stated.

use vstd::prelude::*;
use vstd::utf8::*;
use crate::errors::TokenError;
use crate::lexis::char_at;
use crate::lexis::comment_end;
use crate::lexis::decodable;
use crate::lexis::decodable_from;
use crate::lexis::end_line;
use crate::lexis::eof_token;
use crate::lexis::faults_from;
use crate::lexis::lemma_comment_end;
use crate::lexis::lemma_run_end;
use crate::lexis::lemma_step_advances;
use crate::lexis::newlines;
use crate::lexis::run_end;
use crate::lexis::scanned_faults;
use crate::lexis::scanned_tokens;
use crate::lexis::step;
use crate::lexis::token_at;
use crate::lexis::tokens_from;
use crate::lexis::Outcome;
use crate::lexis::Run;
use crate::text::ascii_text;
use crate::text::is_ascii_bytes;
use crate::text::lemma_ascii_decodes;
use crate::token::TokenView;
use crate::token_type::TokenType;

verus! {

/// The lexeme of a category of punctuation or of an operator; nothing for
/// the other categories.
pub open spec fn operator_lexeme(t: TokenType) -> Option<Seq<char>> {
    match t {
        TokenType::LeftParen => Some(seq!['(']),
        TokenType::RightParen => Some(seq![')']),
        TokenType::LeftBrace => Some(seq!['{']),
        TokenType::RightBrace => Some(seq!['}']),
        TokenType::Comma => Some(seq![',']),
        TokenType::Dot => Some(seq!['.']),
        TokenType::Minus => Some(seq!['-']),
        TokenType::Plus => Some(seq!['+']),
        TokenType::Semicolon => Some(seq![';']),
        TokenType::Slash => Some(seq!['/']),
        TokenType::Star => Some(seq!['*']),
        TokenType::Bang => Some(seq!['!']),
        TokenType::BangEqual => Some(seq!['!', '=']),
        TokenType::Equal => Some(seq!['=']),
        TokenType::EqualEqual => Some(seq!['=', '=']),
        TokenType::Greater => Some(seq!['>']),
        TokenType::GreaterEqual => Some(seq!['>', '=']),
        TokenType::Less => Some(seq!['<']),
        TokenType::LessEqual => Some(seq!['<', '=']),
        _ => None,
    }
}

/// The bytes of an ASCII text, character by character.
pub open spec fn ascii_bytes(text: Seq<char>) -> Seq<u8> {
    Seq::new(text.len(), |i: int| text[i] as u8)
}

/// A source that is one lexeme of punctuation or of an operator, and
/// nothing else, scans without fault to two tokens: the token of that
/// category, with the lexeme and no value, on line 1, and the end-of-input
/// token.
pub proof fn lemma_single_operator(t: TokenType)
    requires
        operator_lexeme(t) is Some,
    ensures
        decodable(ascii_bytes(operator_lexeme(t)->0)),
        scanned_faults(ascii_bytes(operator_lexeme(t)->0)) == Seq::<TokenError>::empty(),
        scanned_tokens(ascii_bytes(operator_lexeme(t)->0)) == seq![
            TokenView { token_type: t, lexeme: operator_lexeme(t)->0, literal: None, line: 1 },
            eof_token(1),
        ],
{
    let text = operator_lexeme(t)->0;
    let src = ascii_bytes(text);
    let len = src.len() as int;
    assert(text.len() == 1 || text.len() == 2);
    assert(src[0] == text[0] as u8);
    if len == 2 {
        assert(src[1] == text[1] as u8);
    }
    let s = step(src, 0, 1);
    assert(s.outcome == Outcome::Token(t) && s.next == len && s.line == 1);
    assert(tokens_from(src, len, 1) == Seq::<TokenView>::empty());
    assert(faults_from(src, len, 1) == Seq::<TokenError>::empty());
    assert(end_line(src, len, 1) == 1);
    assert(decodable_from(src, len, 1));
    assert(src.subrange(0, len) =~= src);
    assert(is_ascii_bytes(src));
    lemma_ascii_decodes(src);
    assert(ascii_text(src) =~= text);
    let token = token_at(src, 0, len, t, 1);
    assert(token == TokenView { token_type: t, lexeme: text, literal: None, line: 1 });
    assert(tokens_from(src, 0, 1) =~= seq![token]);
    assert(scanned_tokens(src) =~= seq![token, eof_token(1)]);
}

/// No token of a lexeme is an end-of-input token.
proof fn lemma_no_eof(src: Seq<u8>, pos: int, line: int, i: int)
    requires
        0 <= pos <= src.len(),
        0 <= i < tokens_from(src, pos, line).len(),
    ensures
        tokens_from(src, pos, line)[i].token_type != TokenType::Eof,
    decreases src.len() - pos,
{
    if pos < src.len() {
        let s = step(src, pos, line);
        lemma_step_advances(src, pos, line);
        match s.outcome {
            Outcome::Token(t) => {
                if i > 0 {
                    lemma_no_eof(src, s.next, s.line, i - 1);
                }
            },
            _ => {
                lemma_no_eof(src, s.next, s.line, i);
            },
        }
    }
}

/// The tokens of every source end with exactly one end-of-input token,
/// whatever faults the source holds.
pub proof fn lemma_scanned_ends_with_eof(src: Seq<u8>)
    ensures
        scanned_tokens(src).len() >= 1,
        scanned_tokens(src).last().token_type == TokenType::Eof,
        forall|i: int|
            0 <= i < scanned_tokens(src).len() - 1 ==> (#[trigger] scanned_tokens(
                src,
            )[i]).token_type != TokenType::Eof,
{
    assert forall|i: int| 0 <= i < scanned_tokens(src).len() - 1 implies (#[trigger] scanned_tokens(
        src,
    )[i]).token_type != TokenType::Eof by {
        lemma_no_eof(src, 0, 1, i);
    }
}

/// The lines of the tokens from `pos` on lie between the line at `pos` and
/// the line at the end, and never go down.
proof fn lemma_lines_from(src: Seq<u8>, pos: int, line: int)
    requires
        0 <= pos <= src.len(),
        src.len() < u64::MAX,
        1 <= line <= pos + 1,
    ensures
        line <= end_line(src, pos, line) <= src.len() + 1,
        forall|i: int|
            0 <= i < tokens_from(src, pos, line).len() ==> line <= (#[trigger] tokens_from(
                src,
                pos,
                line,
            )[i]).line <= end_line(src, pos, line),
        forall|i: int, j: int|
            0 <= i <= j < tokens_from(src, pos, line).len() ==> tokens_from(src, pos, line)[i].line
                <= tokens_from(src, pos, line)[j].line,
    decreases src.len() - pos,
{
    if pos < src.len() {
        let s = step(src, pos, line);
        lemma_step_advances(src, pos, line);
        lemma_lines_from(src, s.next, s.line);
        let rest = tokens_from(src, s.next, s.line);
        let all = tokens_from(src, pos, line);
        match s.outcome {
            Outcome::Token(t) => {
                assert forall|i: int| 0 <= i < all.len() implies line <= (#[trigger] all[i]).line
                    <= end_line(src, pos, line) by {
                    if i > 0 {
                        assert(all[i] == rest[i - 1]);
                    }
                }
                assert forall|i: int, j: int| 0 <= i <= j < all.len() implies all[i].line
                    <= all[j].line by {
                    if i > 0 {
                        assert(all[i] == rest[i - 1]);
                    }
                    if j > 0 {
                        assert(all[j] == rest[j - 1]);
                    }
                }
            },
            _ => {},
        }
    }
}

/// The lines of the tokens of a source never go down from one token to
/// the next.
pub proof fn lemma_lines_ascend(src: Seq<u8>)
    requires
        src.len() < u64::MAX,
    ensures
        forall|i: int, j: int|
            0 <= i <= j < scanned_tokens(src).len() ==> scanned_tokens(src)[i].line
                <= scanned_tokens(src)[j].line,
{
    lemma_lines_from(src, 0, 1);
    let found = tokens_from(src, 0, 1);
    let all = scanned_tokens(src);
    assert forall|i: int, j: int| 0 <= i <= j < all.len() implies all[i].line <= all[j].line by {
        if j < found.len() {
            assert(all[i] == found[i]);
            assert(all[j] == found[j]);
        } else if i < found.len() {
            assert(all[i] == found[i]);
        }
    }
}

/// In UTF-8, what stands between an ASCII byte and a later ASCII byte is
/// UTF-8.
proof fn lemma_between_ascii(src: Seq<u8>, first: int, second: int)
    requires
        valid_utf8(src),
        0 <= first < second < src.len(),
        src[first] < 128,
        src[second] < 128,
    ensures
        valid_utf8(src.subrange(first + 1, second)),
{
    let len = src.len() as int;
    is_char_boundary_iff_not_is_continuation_byte(src, first);
    valid_utf8_split(src, first);
    let tail = src.subrange(first, len);
    assert(tail[0] == src[first]);
    assert(valid_utf8(pop_first_scalar(tail)));
    let rest = src.subrange(first + 1, len);
    assert(pop_first_scalar(tail) =~= rest);
    let k = second - (first + 1);
    assert(rest[k] == src[second]);
    is_char_boundary_iff_not_is_continuation_byte(rest, k);
    valid_utf8_split(rest, k);
    assert(rest.subrange(0, k) =~= src.subrange(first + 1, second));
}

proof fn lemma_text_is_decodable_from(src: Seq<u8>, pos: int, line: int)
    requires
        valid_utf8(src),
        0 <= pos <= src.len(),
    ensures
        decodable_from(src, pos, line),
    decreases src.len() - pos,
{
    if pos < src.len() {
        let s = step(src, pos, line);
        lemma_step_advances(src, pos, line);
        lemma_text_is_decodable_from(src, s.next, s.line);
        if s.outcome == Outcome::Token(TokenType::String) {
            assert(char_at(src, pos) == '"');
            lemma_run_end(src, pos + 1, Run::Text);
            let close = s.next - 1;
            assert(src[close] as char == '"');
            lemma_between_ascii(src, pos, close);
        }
    }
}

/// Every source that is UTF-8 as a whole can be scanned: each of its
/// string literals is UTF-8.
pub proof fn lemma_text_is_decodable(src: Seq<u8>)
    requires
        valid_utf8(src),
    ensures
        decodable(src),
{
    lemma_text_is_decodable_from(src, 0, 1);
}

/// Every source of ASCII bytes can be scanned.
pub proof fn lemma_ascii_is_decodable(src: Seq<u8>)
    requires
        is_ascii_bytes(src),
    ensures
        decodable(src),
{
    lemma_ascii_decodes(src);
    lemma_text_is_decodable(src);
}

/// A string literal that no quote closes gives no token, and nothing after
/// it does: the rest of the source is the literal. It is one fault, which
/// carries the line at the end of the source: the line of the opening quote
/// where the literal holds no newline.
pub proof fn lemma_unterminated_string(src: Seq<u8>, pos: int, line: int)
    requires
        0 <= pos < src.len(),
        char_at(src, pos) == '"',
        forall|k: int| pos < k < src.len() ==> #[trigger] src[k] as char != '"',
    ensures
        tokens_from(src, pos, line) == Seq::<TokenView>::empty(),
        faults_from(src, pos, line) == seq![
            TokenError::UnterminatedString((line + newlines(src, pos + 1, src.len() as int)) as u64),
        ],
{
    let len = src.len() as int;
    lemma_run_end(src, pos + 1, Run::Text);
    assert(run_end(src, pos + 1, Run::Text) == len);
    let s = step(src, pos, line);
    assert(s.next == len);
    assert(tokens_from(src, len, s.line) == Seq::<TokenView>::empty());
    assert(faults_from(src, len, s.line) == Seq::<TokenError>::empty());
    assert(faults_from(src, pos, line) =~= seq![
        TokenError::UnterminatedString((line + newlines(src, pos + 1, len)) as u64),
    ]);
}

/// A block comment that no `*/` closes gives no token, and nothing after
/// it does: the rest of the source is the comment. It is one fault, which
/// carries the line at the end of the source.
pub proof fn lemma_unterminated_block_comment(src: Seq<u8>, pos: int, line: int)
    requires
        0 <= pos < src.len(),
        char_at(src, pos) == '/',
        char_at(src, pos + 1) == '*',
        forall|k: int|
            pos + 2 <= k < src.len() ==> !(#[trigger] char_at(src, k) == '*' && char_at(src, k + 1)
                == '/'),
    ensures
        tokens_from(src, pos, line) == Seq::<TokenView>::empty(),
        faults_from(src, pos, line) == seq![
            TokenError::UnterminatedBlockComment(
                (line + newlines(src, pos + 2, src.len() as int)) as u64,
            ),
        ],
{
    let len = src.len() as int;
    lemma_comment_end(src, pos + 2);
    assert(comment_end(src, pos + 2) == len);
    let s = step(src, pos, line);
    assert(s.next == len);
    assert(tokens_from(src, len, s.line) == Seq::<TokenView>::empty());
    assert(faults_from(src, len, s.line) == Seq::<TokenError>::empty());
    assert(faults_from(src, pos, line) =~= seq![
        TokenError::UnterminatedBlockComment((line + newlines(src, pos + 2, len)) as u64),
    ]);
}

} // verus!
