//! The scanner: from source bytes to tokens.

use vstd::prelude::*;
use vstd::slice::slice_subrange;
use vstd::utf8::*;
use crate::errors::TokenError;
use crate::lexis::block_comment_step;
use crate::lexis::char_at;
use crate::lexis::comment_end;
use crate::lexis::continues;
use crate::lexis::decodable;
use crate::lexis::decodable_from;
use crate::lexis::end_line;
use crate::lexis::eof_token;
use crate::lexis::faults_from;
use crate::lexis::is_alpha;
use crate::lexis::is_alpha_numeric;
use crate::lexis::is_digit;
use crate::lexis::keyword;
use crate::lexis::lemma_run_end;
use crate::lexis::lemma_step_advances;
use crate::lexis::newlines;
use crate::lexis::number_end;
use crate::lexis::run_end;
use crate::lexis::scanned_faults;
use crate::lexis::scanned_tokens;
use crate::lexis::step;
use crate::lexis::step_decodable;
use crate::lexis::string_step;
use crate::lexis::token_at;
use crate::lexis::tokens_from;
use crate::lexis::Outcome;
use crate::lexis::Run;
use crate::lexis::Step;
use crate::text::ascii_text;
use crate::text::decode_range;
use crate::text::is_ascii_bytes;
use crate::text::lemma_ascii_decodes;
use crate::token::clone_tokens;
use crate::token::literal_view;
use crate::token::token_views;
use crate::token::Literal;
use crate::token::Token;
use crate::token::TokenView;
use crate::token_type::TokenType;

verus! {

/// A scanner over one source: the bytes, the tokens and faults found so
/// far, and three cursors, the beginning of the current lexeme, the next
/// unread byte, and the line there.
#[derive(Debug, Clone)]
pub struct Scanner {
    source: Vec<u8>,
    tokens: Vec<Token>,
    faults: Vec<TokenError>,
    start: usize,
    current: usize,
    line: u64,
}

/// The mathematical content of a `Scanner`.
pub struct ScannerView {
    pub source: Seq<u8>,
    pub tokens: Seq<TokenView>,
    pub faults: Seq<TokenError>,
    pub current: int,
    pub line: int,
}

impl ScannerView {
    /// What has been found so far, followed by what the rest of the source
    /// holds, is what the whole source holds.
    pub open spec fn agrees(self) -> bool {
        &&& 0 <= self.current <= self.source.len()
        &&& tokens_from(self.source, 0, 1) == self.tokens + tokens_from(
            self.source,
            self.current,
            self.line,
        )
        &&& faults_from(self.source, 0, 1) == self.faults + faults_from(
            self.source,
            self.current,
            self.line,
        )
        &&& end_line(self.source, 0, 1) == end_line(self.source, self.current, self.line)
    }
}

impl View for Scanner {
    type V = ScannerView;

    closed spec fn view(&self) -> ScannerView {
        ScannerView {
            source: self.source@,
            tokens: token_views(self.tokens@),
            faults: self.faults@,
            current: self.current as int,
            line: self.line as int,
        }
    }
}

/// Pushing a token pushes its content.
proof fn lemma_views_push(tokens: Seq<Token>, token: Token)
    ensures
        token_views(tokens.push(token)) == token_views(tokens).push(token@),
{
    assert(token_views(tokens.push(token)) =~= token_views(tokens).push(token@));
}

/// Whether the bytes spell the word.
fn spells(bytes: &[u8], word: &[char]) -> (r: bool)
    ensures
        r == (ascii_text(bytes@) == word@),
{
    if bytes.len() != word.len() {
        return false;
    }
    let mut i: usize = 0;
    while i < bytes.len()
        invariant
            bytes.len() == word.len(),
            i <= bytes.len(),
            forall|k: int| 0 <= k < i ==> bytes[k] as char == word[k],
        decreases bytes.len() - i,
    {
        if bytes[i] as char != word[i] {
            assert(ascii_text(bytes@)[i as int] != word@[i as int]);
            return false;
        }
        i += 1;
    }
    assert(ascii_text(bytes@) =~= word@);
    true
}

/// Looks the word up in the table of reserved words.
pub fn keyword_type(word: &[u8]) -> (r: Option<TokenType>)
    ensures
        r == keyword(ascii_text(word@)),
{
    let and: [char; 3] = ['a', 'n', 'd'];
    let class: [char; 5] = ['c', 'l', 'a', 's', 's'];
    let else_: [char; 4] = ['e', 'l', 's', 'e'];
    let false_: [char; 5] = ['f', 'a', 'l', 's', 'e'];
    let fun: [char; 3] = ['f', 'u', 'n'];
    let for_: [char; 3] = ['f', 'o', 'r'];
    let if_: [char; 2] = ['i', 'f'];
    let nil: [char; 3] = ['n', 'i', 'l'];
    let or: [char; 2] = ['o', 'r'];
    let print: [char; 5] = ['p', 'r', 'i', 'n', 't'];
    let return_: [char; 6] = ['r', 'e', 't', 'u', 'r', 'n'];
    let super_: [char; 5] = ['s', 'u', 'p', 'e', 'r'];
    let this: [char; 4] = ['t', 'h', 'i', 's'];
    let true_: [char; 4] = ['t', 'r', 'u', 'e'];
    let var: [char; 3] = ['v', 'a', 'r'];
    let while_: [char; 5] = ['w', 'h', 'i', 'l', 'e'];
    proof {
        assert(and@ =~= seq!['a', 'n', 'd']);
        assert(class@ =~= seq!['c', 'l', 'a', 's', 's']);
        assert(else_@ =~= seq!['e', 'l', 's', 'e']);
        assert(false_@ =~= seq!['f', 'a', 'l', 's', 'e']);
        assert(fun@ =~= seq!['f', 'u', 'n']);
        assert(for_@ =~= seq!['f', 'o', 'r']);
        assert(if_@ =~= seq!['i', 'f']);
        assert(nil@ =~= seq!['n', 'i', 'l']);
        assert(or@ =~= seq!['o', 'r']);
        assert(print@ =~= seq!['p', 'r', 'i', 'n', 't']);
        assert(return_@ =~= seq!['r', 'e', 't', 'u', 'r', 'n']);
        assert(super_@ =~= seq!['s', 'u', 'p', 'e', 'r']);
        assert(this@ =~= seq!['t', 'h', 'i', 's']);
        assert(true_@ =~= seq!['t', 'r', 'u', 'e']);
        assert(var@ =~= seq!['v', 'a', 'r']);
        assert(while_@ =~= seq!['w', 'h', 'i', 'l', 'e']);
    }
    if spells(word, &and) {
        Some(TokenType::And)
    } else if spells(word, &class) {
        Some(TokenType::Class)
    } else if spells(word, &else_) {
        Some(TokenType::Else)
    } else if spells(word, &false_) {
        Some(TokenType::False)
    } else if spells(word, &fun) {
        Some(TokenType::Fun)
    } else if spells(word, &for_) {
        Some(TokenType::For)
    } else if spells(word, &if_) {
        Some(TokenType::If)
    } else if spells(word, &nil) {
        Some(TokenType::Nil)
    } else if spells(word, &or) {
        Some(TokenType::Or)
    } else if spells(word, &print) {
        Some(TokenType::Print)
    } else if spells(word, &return_) {
        Some(TokenType::Return)
    } else if spells(word, &super_) {
        Some(TokenType::Super)
    } else if spells(word, &this) {
        Some(TokenType::This)
    } else if spells(word, &true_) {
        Some(TokenType::True)
    } else if spells(word, &var) {
        Some(TokenType::Var)
    } else if spells(word, &while_) {
        Some(TokenType::While)
    } else {
        None
    }
}

impl Scanner {
    /// The cursors lie in order within the source, and the line has gone up
    /// by no more than the bytes read.
    spec fn inv(&self) -> bool {
        &&& self.start <= self.current <= self.source.len() < usize::MAX
        &&& 1 <= self.line
        &&& self.line - 1 <= self.current
    }

    /// Whether `self` differs from `before` in the two reading cursors
    /// alone.
    spec fn moved_from(&self, before: &Scanner) -> bool {
        &&& self.source == before.source
        &&& self.tokens == before.tokens
        &&& self.faults == before.faults
        &&& self.start == before.start
    }

    /// The scanner is in a state that scanning reaches: what it has found,
    /// followed by what the rest of the source holds, is what the whole
    /// source holds.
    pub closed spec fn wf(&self) -> bool {
        let src = self.source@;
        &&& self.inv()
        &&& forall|i: int|
            0 <= i < self.tokens.len() ==> (#[trigger] self.tokens[i]).token_type
                != TokenType::Eof
        &&& tokens_from(src, 0, 1) == token_views(self.tokens@) + tokens_from(
            src,
            self.current as int,
            self.line as int,
        )
        &&& faults_from(src, 0, 1) == self.faults@ + faults_from(
            src,
            self.current as int,
            self.line as int,
        )
        &&& end_line(src, 0, 1) == end_line(src, self.current as int, self.line as int)
        &&& decodable_from(src, 0, 1) == decodable_from(
            src,
            self.current as int,
            self.line as int,
        )
    }

    /// A scanner at the beginning of `source`.
    pub fn new(source: Vec<u8>) -> (r: Self)
        requires
            source.len() < usize::MAX,
        ensures
            r.wf(),
            r@.source == source@,
            r@.tokens == Seq::<TokenView>::empty(),
            r@.faults == Seq::<TokenError>::empty(),
            r@.current == 0,
            r@.line == 1,
    {
        let r = Scanner {
            source,
            tokens: Vec::new(),
            faults: Vec::new(),
            start: 0,
            current: 0,
            line: 1,
        };
        proof {
            assert(token_views(r.tokens@) =~= Seq::<TokenView>::empty());
            assert(token_views(r.tokens@) + tokens_from(r.source@, 0, 1) =~= tokens_from(
                r.source@,
                0,
                1,
            ));
            assert(r.faults@ + faults_from(r.source@, 0, 1) =~= faults_from(r.source@, 0, 1));
        }
        r
    }

    /// The faults met so far, in order.
    pub fn faults(&self) -> (r: &Vec<TokenError>)
        ensures
            r@ == self@.faults,
    {
        &self.faults
    }

    fn is_at_end(&self) -> (r: bool)
        ensures
            r == (self.current >= self.source.len()),
    {
        self.current >= self.source.len()
    }

    /// Reads the next byte.
    fn advance(&mut self) -> (b: u8)
        requires
            old(self).current < old(self).source.len(),
        ensures
            final(self).moved_from(old(self)),
            final(self).line == old(self).line,
            final(self).current == old(self).current + 1,
            b == old(self).source[old(self).current as int],
    {
        self.current += 1;
        self.source[self.current - 1]
    }

    /// If the next byte is `expected`, reads it.
    fn match_next_lexeme(&mut self, expected: char) -> (r: bool)
        ensures
            final(self).moved_from(old(self)),
            final(self).line == old(self).line,
            r == (old(self).current < old(self).source.len() && old(self).source[old(
                self,
            ).current as int] as char == expected),
            final(self).current == if r {
                old(self).current + 1
            } else {
                old(self).current as int
            },
    {
        if self.is_at_end() {
            return false;
        }
        if self.source[self.current] as char != expected {
            return false;
        }
        self.current += 1;
        true
    }

    /// The next byte, without reading it.
    fn peek(&self) -> (c: char)
        ensures
            c == char_at(self.source@, self.current as int),
    {
        if self.is_at_end() {
            return '\0';
        }
        self.source[self.current] as char
    }

    /// The byte after the next, without reading it.
    fn peek_next(&self) -> (c: char)
        requires
            self.current < usize::MAX,
        ensures
            c == char_at(self.source@, self.current + 1),
    {
        if self.current + 1 >= self.source.len() {
            return '\0';
        }
        self.source[self.current + 1] as char
    }

    fn is_digit(&self, c: char) -> (r: bool)
        ensures
            r == is_digit(c),
    {
        '0' <= c && c <= '9'
    }

    fn is_alpha_numeric(&self, c: char) -> (r: bool)
        ensures
            r == is_alpha_numeric(c),
    {
        self.is_alpha(c) || self.is_digit(c)
    }

    fn is_alpha(&self, c: char) -> (r: bool)
        ensures
            r == is_alpha(c),
    {
        ('a' <= c && c <= 'z') || ('A' <= c && c <= 'Z') || c == '_'
    }

    /// Adds the token of the category whose lexeme runs from `start` to
    /// `current`, with no value.
    fn add_token(&mut self, token: TokenType)
        requires
            old(self).inv(),
            valid_utf8(
                old(self).source@.subrange(old(self).start as int, old(self).current as int),
            ),
        ensures
            final(self).inv(),
            final(self).source == old(self).source,
            final(self).faults == old(self).faults,
            final(self).start == old(self).start,
            final(self).current == old(self).current,
            final(self).line == old(self).line,
            token_views(final(self).tokens@) == token_views(old(self).tokens@).push(
                TokenView {
                    token_type: token,
                    lexeme: decode_utf8(
                        old(self).source@.subrange(
                            old(self).start as int,
                            old(self).current as int,
                        ),
                    ),
                    literal: None,
                    line: old(self).line,
                },
            ),
    {
        self.add_token_with_literal(token, None);
    }

    /// Adds the token of the category whose lexeme runs from `start` to
    /// `current`, with the value given.
    fn add_token_with_literal(&mut self, token_type: TokenType, literal: Option<Literal>)
        requires
            old(self).inv(),
            valid_utf8(
                old(self).source@.subrange(old(self).start as int, old(self).current as int),
            ),
        ensures
            final(self).inv(),
            final(self).source == old(self).source,
            final(self).faults == old(self).faults,
            final(self).start == old(self).start,
            final(self).current == old(self).current,
            final(self).line == old(self).line,
            token_views(final(self).tokens@) == token_views(old(self).tokens@).push(
                TokenView {
                    token_type,
                    lexeme: decode_utf8(
                        old(self).source@.subrange(
                            old(self).start as int,
                            old(self).current as int,
                        ),
                    ),
                    literal: literal_view(literal),
                    line: old(self).line,
                },
            ),
    {
        let text = match decode_range(&self.source, self.start, self.current) {
            Some(text) => text,
            None => vstd::pervasive::unreached(),
        };
        let new_token = Token::new(token_type, text, literal, self.line);
        proof {
            lemma_views_push(self.tokens@, new_token);
        }
        self.tokens.push(new_token);
    }

    /// What a lexeme did to the scanner: the cursors stand where `s` says,
    /// and the tokens have grown by the token that `s` describes, if it
    /// describes one. The lexeme began at `start`.
    spec fn made(&self, before: &Scanner, start: int, s: Step, r: Result<(), TokenError>) -> bool {
        let src = before.source@;
        &&& self.inv()
        &&& self.source == before.source
        &&& self.faults == before.faults
        &&& self.start == before.start
        &&& self.current == s.next
        &&& self.line == s.line
        &&& match s.outcome {
            Outcome::Token(t) => r is Ok && token_views(self.tokens@) == token_views(
                before.tokens@,
            ).push(token_at(src, start, s.next, t, s.line)),
            Outcome::Nothing => r is Ok && self.tokens == before.tokens,
            Outcome::Fault(e) => r == Err::<(), TokenError>(e) && self.tokens == before.tokens,
        }
    }

    /// Reads the rest of a string literal, whose opening quote has been
    /// read, and adds its token.
    fn string(&mut self) -> (r: Result<(), TokenError>)
        requires
            old(self).inv(),
            old(self).current == old(self).start + 1,
            char_at(old(self).source@, old(self).start as int) == '"',
            step_decodable(
                old(self).source@,
                old(self).start as int,
                string_step(old(self).source@, old(self).start as int, old(self).line as int),
            ),
        ensures
            final(self).made(
                old(self),
                old(self).start as int,
                string_step(old(self).source@, old(self).start as int, old(self).line as int),
                r,
            ),
    {
        let ghost src = self.source@;
        let ghost start = self.start as int;
        let ghost line = self.line as int;
        let ghost before = *self;
        while !(self.peek() == '"' || self.is_at_end())
            invariant
                self.moved_from(&before),
                src == self.source@,
                start == self.start,
                start + 1 <= self.current <= src.len() < usize::MAX,
                run_end(src, self.current as int, Run::Text) == run_end(
                    src,
                    start + 1,
                    Run::Text,
                ),
                self.line == line + newlines(src, start + 1, self.current as int),
                1 <= self.line,
                self.line - 1 <= self.current,
            decreases src.len() - self.current,
        {
            if self.peek() == '\n' {
                self.line += 1;
            }
            self.advance();
        }
        let ghost close = self.current as int;
        assert(close == run_end(src, start + 1, Run::Text));
        if self.is_at_end() {
            return Err(TokenError::UnterminatedString(self.line));
        }
        self.advance();
        let first = self.start + 1;
        let last = self.current - 1;
        let value = match decode_range(&self.source, first, last) {
            Some(value) => value,
            None => vstd::pervasive::unreached(),
        };
        proof {
            let quote = src.subrange(start, start + 1);
            let inner = src.subrange(start + 1, close);
            let end_quote = src.subrange(close, close + 1);
            assert(is_ascii_bytes(quote));
            assert(is_ascii_bytes(end_quote));
            lemma_ascii_decodes(quote);
            lemma_ascii_decodes(end_quote);
            valid_utf8_concat(quote, inner);
            valid_utf8_concat(quote + inner, end_quote);
            assert(src.subrange(start, close + 1) =~= quote + inner + end_quote);
        }
        self.add_token_with_literal(TokenType::String, Some(Literal::Str(value)));
        Ok(())
    }

    /// Reads the rest of a block comment, whose `/*` has been read, through
    /// its `*/`.
    fn block_comment(&mut self) -> (r: Result<(), TokenError>)
        requires
            old(self).inv(),
            old(self).current == old(self).start + 2,
        ensures
            final(self).made(
                old(self),
                old(self).start as int,
                block_comment_step(
                    old(self).source@,
                    old(self).start as int,
                    old(self).line as int,
                ),
                r,
            ),
    {
        let ghost src = self.source@;
        let ghost start = self.start as int;
        let ghost line = self.line as int;
        let ghost before = *self;
        while !(self.peek() == '*' && self.peek_next() == '/' || self.is_at_end())
            invariant
                self.moved_from(&before),
                src == self.source@,
                start == self.start,
                start + 2 <= self.current <= src.len() < usize::MAX,
                comment_end(src, self.current as int) == comment_end(src, start + 2),
                self.line == line + newlines(src, start + 2, self.current as int),
                1 <= self.line,
                self.line - 1 <= self.current,
            decreases src.len() - self.current,
        {
            if self.peek() == '\n' {
                self.line += 1;
            }
            self.advance();
        }
        assert(self.current == comment_end(src, start + 2));
        if self.is_at_end() {
            return Err(TokenError::UnterminatedBlockComment(self.line));
        }
        self.advance();
        self.advance();
        Ok(())
    }

    /// Reads the rest of a number literal, whose first digit has been read,
    /// and adds its token.
    fn number(&mut self)
        requires
            old(self).inv(),
            old(self).current == old(self).start + 1,
            is_digit(char_at(old(self).source@, old(self).start as int)),
        ensures
            final(self).made(
                old(self),
                old(self).start as int,
                Step {
                    outcome: Outcome::Token(TokenType::Number),
                    next: number_end(old(self).source@, old(self).start as int),
                    line: old(self).line as int,
                },
                Ok(()),
            ),
    {
        let ghost src = self.source@;
        let ghost start = self.start as int;
        let ghost before = *self;
        while self.is_digit(self.peek())
            invariant
                self.moved_from(&before),
                self.line == before.line,
                src == self.source@,
                start + 1 <= self.current <= src.len() < usize::MAX,
                run_end(src, self.current as int, Run::Digits) == run_end(
                    src,
                    start + 1,
                    Run::Digits,
                ),
            decreases src.len() - self.current,
        {
            self.advance();
        }
        let ghost whole = self.current as int;
        proof {
            lemma_run_end(src, start + 1, Run::Digits);
        }
        if self.peek() == '.' && self.is_digit(self.peek_next()) {
            self.advance();
            while self.is_digit(self.peek())
                invariant
                    self.moved_from(&before),
                    self.line == before.line,
                    src == self.source@,
                    whole + 1 <= self.current <= src.len() < usize::MAX,
                    run_end(src, self.current as int, Run::Digits) == run_end(
                        src,
                        whole + 1,
                        Run::Digits,
                    ),
                decreases src.len() - self.current,
            {
                self.advance();
            }
            proof {
                lemma_run_end(src, whole + 1, Run::Digits);
            }
        }
        proof {
            let bytes = src.subrange(start, self.current as int);
            assert forall|i: int| 0 <= i < bytes.len() implies #[trigger] bytes[i] < 128 by {
                let k = start + i;
                assert(bytes[i] == src[k]);
                if k == start {
                } else if k < whole {
                    assert(continues(Run::Digits, src[k] as char));
                } else if k == whole {
                } else {
                    assert(continues(Run::Digits, src[k] as char));
                }
            }
            lemma_ascii_decodes(bytes);
        }
        let text = match decode_range(&self.source, self.start, self.current) {
            Some(text) => text,
            None => vstd::pervasive::unreached(),
        };
        self.add_token_with_literal(TokenType::Number, Some(Literal::Number(text)));
    }

    /// Reads the rest of a word, whose first character has been read, and
    /// adds its token: that of the reserved word it is, else an identifier
    /// that carries its text.
    fn identifier(&mut self)
        requires
            old(self).inv(),
            old(self).current == old(self).start + 1,
            is_alpha(char_at(old(self).source@, old(self).start as int)),
        ensures
            final(self).made(
                old(self),
                old(self).start as int,
                step(old(self).source@, old(self).start as int, old(self).line as int),
                Ok(()),
            ),
    {
        let ghost src = self.source@;
        let ghost start = self.start as int;
        let ghost before = *self;
        while self.is_alpha_numeric(self.peek())
            invariant
                self.moved_from(&before),
                self.line == before.line,
                src == self.source@,
                start + 1 <= self.current <= src.len() < usize::MAX,
                run_end(src, self.current as int, Run::Word) == run_end(
                    src,
                    start + 1,
                    Run::Word,
                ),
            decreases src.len() - self.current,
        {
            self.advance();
        }
        proof {
            lemma_run_end(src, start + 1, Run::Word);
            let bytes = src.subrange(start, self.current as int);
            assert forall|i: int| 0 <= i < bytes.len() implies #[trigger] bytes[i] < 128 by {
                let k = start + i;
                assert(bytes[i] == src[k]);
                if k > start {
                    assert(continues(Run::Word, src[k] as char));
                }
            }
            lemma_ascii_decodes(bytes);
        }
        let word = slice_subrange(self.source.as_slice(), self.start, self.current);
        match keyword_type(word) {
            Some(token) => {
                self.add_token(token);
            },
            None => {
                let text = match decode_range(&self.source, self.start, self.current) {
                    Some(text) => text,
                    None => vstd::pervasive::unreached(),
                };
                self.add_token_with_literal(
                    TokenType::Identifier,
                    Some(Literal::Identifier(text)),
                );
            },
        }
    }

    /// Reads one lexeme, which begins at the next byte, and adds its token
    /// if it has one. A fault is returned, not recorded.
    fn scan_token(&mut self) -> (r: Result<(), TokenError>)
        requires
            old(self).inv(),
            old(self).start == old(self).current,
            old(self).current < old(self).source.len(),
            step_decodable(
                old(self).source@,
                old(self).current as int,
                step(old(self).source@, old(self).current as int, old(self).line as int),
            ),
        ensures
            final(self).made(
                old(self),
                old(self).current as int,
                step(old(self).source@, old(self).current as int, old(self).line as int),
                r,
            ),
    {
        let ghost src = self.source@;
        let ghost start = self.start as int;
        let ghost before = *self;
        let c = self.advance() as char;
        let token = match c {
            '(' => TokenType::LeftParen,
            ')' => TokenType::RightParen,
            '{' => TokenType::LeftBrace,
            '}' => TokenType::RightBrace,
            ',' => TokenType::Comma,
            '.' => TokenType::Dot,
            '-' => TokenType::Minus,
            '+' => TokenType::Plus,
            ';' => TokenType::Semicolon,
            '*' => TokenType::Star,
            '!' => {
                if self.match_next_lexeme('=') {
                    TokenType::BangEqual
                } else {
                    TokenType::Bang
                }
            },
            '=' => {
                if self.match_next_lexeme('=') {
                    TokenType::EqualEqual
                } else {
                    TokenType::Equal
                }
            },
            '<' => {
                if self.match_next_lexeme('=') {
                    TokenType::LessEqual
                } else {
                    TokenType::Less
                }
            },
            '>' => {
                if self.match_next_lexeme('=') {
                    TokenType::GreaterEqual
                } else {
                    TokenType::Greater
                }
            },
            '/' => {
                if self.match_next_lexeme('/') {
                    while self.peek() != '\n' && !self.is_at_end()
                        invariant
                            self.moved_from(&before),
                            self.line == before.line,
                            src == self.source@,
                            start + 2 <= self.current <= src.len() < usize::MAX,
                            run_end(src, self.current as int, Run::Line) == run_end(
                                src,
                                start + 2,
                                Run::Line,
                            ),
                        decreases src.len() - self.current,
                    {
                        self.advance();
                    }
                    return Ok(());
                } else if self.match_next_lexeme('*') {
                    return self.block_comment();
                } else {
                    TokenType::Slash
                }
            },
            ' ' | '\r' | '\t' => {
                return Ok(());
            },
            '\n' => {
                self.line += 1;
                return Ok(());
            },
            '"' => {
                return self.string();
            },
            _ => {
                if self.is_digit(c) {
                    self.number();
                    return Ok(());
                } else if self.is_alpha(c) {
                    self.identifier();
                    return Ok(());
                } else {
                    return Err(TokenError::InvalidToken(self.line, c));
                }
            },
        };
        proof {
            let bytes = src.subrange(start, self.current as int);
            assert forall|i: int| 0 <= i < bytes.len() implies #[trigger] bytes[i] < 128 by {
                assert(bytes[i] == src[start + i]);
            }
            lemma_ascii_decodes(bytes);
        }
        self.add_token(token);
        Ok(())
    }

    /// Whether the lexeme that begins at the next byte can be turned into
    /// text.
    fn next_is_text(&self) -> (r: bool)
        requires
            self.inv(),
            self.current < self.source.len(),
        ensures
            r == step_decodable(
                self.source@,
                self.current as int,
                step(self.source@, self.current as int, self.line as int),
            ),
    {
        if self.source[self.current] as char != '"' {
            return true;
        }
        let ghost src = self.source@;
        let mut close = self.current + 1;
        while close < self.source.len() && self.source[close] as char != '"'
            invariant
                src == self.source@,
                self.current + 1 <= close <= src.len(),
                run_end(src, close as int, Run::Text) == run_end(
                    src,
                    self.current + 1,
                    Run::Text,
                ),
            decreases src.len() - close,
        {
            close += 1;
        }
        if close >= self.source.len() {
            return true;
        }
        decode_range(&self.source, self.current + 1, close).is_some()
    }

    /// Reads one lexeme, which begins at the next byte: adds its token if
    /// it has one, and records its fault if it is one.
    fn scan_next(&mut self)
        requires
            old(self).wf(),
            old(self).current < old(self).source.len(),
            step_decodable(
                old(self).source@,
                old(self).current as int,
                step(old(self).source@, old(self).current as int, old(self).line as int),
            ),
        ensures
            final(self).wf(),
            final(self).source == old(self).source,
            final(self).current > old(self).current,
    {
        let ghost src = self.source@;
        let ghost pos = self.current as int;
        let ghost line = self.line as int;
        let ghost s = step(src, pos, line);
        let ghost found = token_views(self.tokens@);
        self.start = self.current;
        proof {
            lemma_step_advances(src, pos, line);
        }
        if let Err(e) = self.scan_token() {
            self.faults.push(e);
        }
        proof {
            let rest = tokens_from(src, s.next, s.line);
            match s.outcome {
                Outcome::Token(t) => {
                    let token = token_at(src, pos, s.next, t, s.line);
                    assert(found + (seq![token] + rest) =~= found.push(token) + rest);
                    assert(token_views(self.tokens@)[found.len() as int] == token);
                },
                Outcome::Nothing => {},
                Outcome::Fault(e) => {
                    let faults = faults_from(src, s.next, s.line);
                    assert((self.faults@.drop_last()) + (seq![e] + faults) =~= self.faults@
                        + faults);
                },
            }
            assert forall|i: int| 0 <= i < self.tokens.len() implies (
            #[trigger] self.tokens[i]).token_type != TokenType::Eof by {
                assert(token_views(self.tokens@)[i] == self.tokens[i]@);
                if i < found.len() {
                    assert(found[i] == token_views(self.tokens@)[i]);
                }
            }
            assert(tokens_from(src, 0, 1) == token_views(self.tokens@) + tokens_from(
                src,
                self.current as int,
                self.line as int,
            ));
            assert(faults_from(src, 0, 1) == self.faults@ + faults_from(
                src,
                self.current as int,
                self.line as int,
            ));
            assert(end_line(src, 0, 1) == end_line(src, self.current as int, self.line as int));
            assert(decodable_from(src, 0, 1) == decodable_from(
                src,
                self.current as int,
                self.line as int,
            ));
        }
    }

    /// The tokens of a source that has been scanned to its end: those
    /// found, then the end-of-input token.
    fn finished(&self) -> (r: Vec<Token>)
        requires
            self.wf(),
            self.current == self.source.len(),
        ensures
            self.faults@ == scanned_faults(self.source@),
            token_views(r@) == scanned_tokens(self.source@),
            r.len() >= 1,
            r[r.len() - 1].token_type == TokenType::Eof,
            forall|i: int| 0 <= i < r.len() - 1 ==> (#[trigger] r[i]).token_type != TokenType::Eof,
    {
        let mut tokens = clone_tokens(&self.tokens);
        let last = Token::new(TokenType::Eof, String::new(), None, self.line);
        proof {
            let src = self.source@;
            lemma_views_push(tokens@, last);
            assert(last@ == eof_token(self.line as int));
            assert(tokens_from(src, 0, 1) =~= token_views(self.tokens@));
            assert(faults_from(src, 0, 1) =~= self.faults@);
            assert forall|i: int| 0 <= i < tokens.len() implies (#[trigger] tokens[i]).token_type
                != TokenType::Eof by {
                assert(token_views(tokens@)[i] == tokens[i]@);
                assert(token_views(self.tokens@)[i] == self.tokens[i]@);
            }
        }
        tokens.push(last);
        tokens
    }

    /// Scans the source to its end and returns its tokens: those of its
    /// lexemes in order, then one end-of-input token. No other token of the
    /// result is an end-of-input token. The faults met are recorded, and
    /// `faults` returns them.
    ///
    /// The string literals of the source have to be UTF-8; `try_scan_tokens`
    /// asks nothing of the source.
    pub fn scan_tokens(&mut self) -> (r: Vec<Token>)
        requires
            old(self).wf(),
            decodable(old(self)@.source),
        ensures
            final(self).wf(),
            final(self)@.source == old(self)@.source,
            final(self)@.faults == scanned_faults(old(self)@.source),
            final(self)@.current == old(self)@.source.len(),
            token_views(r@) == scanned_tokens(old(self)@.source),
            r.len() >= 1,
            r[r.len() - 1].token_type == TokenType::Eof,
            forall|i: int| 0 <= i < r.len() - 1 ==> (#[trigger] r[i]).token_type != TokenType::Eof,
    {
        loop
            invariant
                self.wf(),
                self.source == old(self).source,
                decodable(self.source@),
            ensures
                self.current == self.source.len(),
            decreases self.source.len() - self.current,
        {
            if self.is_at_end() {
                break;
            }
            self.scan_next();
        }
        self.finished()
    }

    /// Scans the source to its end and returns its tokens, as `scan_tokens`
    /// does, where its string literals are UTF-8. Where one is not, returns
    /// nothing, and the scanner stands before the first such literal.
    pub fn try_scan_tokens(&mut self) -> (r: Option<Vec<Token>>)
        requires
            old(self).wf(),
        ensures
            final(self).wf(),
            final(self)@.source == old(self)@.source,
            r is Some <==> decodable(old(self)@.source),
            r is None ==> {
                &&& final(self)@.agrees()
                &&& final(self)@.current < final(self)@.source.len()
                &&& !step_decodable(
                    final(self)@.source,
                    final(self)@.current,
                    step(final(self)@.source, final(self)@.current, final(self)@.line),
                )
            },
            r matches Some(tokens) ==> {
                &&& final(self)@.faults == scanned_faults(old(self)@.source)
                &&& final(self)@.current == old(self)@.source.len()
                &&& token_views(tokens@) == scanned_tokens(old(self)@.source)
                &&& tokens.len() >= 1
                &&& tokens[tokens.len() - 1].token_type == TokenType::Eof
                &&& forall|i: int|
                    0 <= i < tokens.len() - 1 ==> (#[trigger] tokens[i]).token_type
                        != TokenType::Eof
            },
    {
        while !self.is_at_end()
            invariant
                self.wf(),
                self.source == old(self).source,
            decreases self.source.len() - self.current,
        {
            if !self.next_is_text() {
                assert(!decodable_from(
                    self.source@,
                    self.current as int,
                    self.line as int,
                ));
                return None;
            }
            self.scan_next();
        }
        Some(self.finished())
    }
}

} // verus!
