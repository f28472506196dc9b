//! The scanner: a lazy token producer over the source bytes.
//!
//! `start..current` brackets the lexeme under construction; `line` counts
//! newlines seen so far. Tokens carry their lexeme as a byte range into the
//! source together with the line they ended on.

use vstd::prelude::*;
use crate::common::TokenType;

verus! {

/// An ASCII decimal digit.
pub open spec fn is_digit(b: u8) -> bool {
    48 <= b <= 57
}

/// An ASCII letter.
pub open spec fn is_alpha(b: u8) -> bool {
    (65 <= b <= 90) || (97 <= b <= 122)
}

/// A letter or digit: what may continue an identifier.
pub open spec fn is_alnum(b: u8) -> bool {
    is_alpha(b) || is_digit(b)
}

/// Every byte of the sequence is a digit.
pub open spec fn all_digits(s: Seq<u8>) -> bool {
    forall|i: int| 0 <= i < s.len() ==> is_digit(#[trigger] s[i])
}

/// The shape of a number lexeme: one or more digits, optionally followed by
/// a dot and one or more digits.
pub open spec fn is_number_lexeme(s: Seq<u8>) -> bool {
    ||| (s.len() > 0 && all_digits(s))
    ||| (exists|i: int|
        1 <= i && i + 2 <= s.len() && s[i] == 46 && all_digits(#[trigger] s.subrange(0, i))
            && all_digits(s.subrange(i + 1, s.len() as int)))
}

/// The shape of an identifier lexeme: a letter, then letters or digits.
pub open spec fn is_ident_lexeme(s: Seq<u8>) -> bool {
    s.len() > 0 && is_alpha(s[0]) && (forall|i: int| 1 <= i < s.len() ==> is_alnum(#[trigger] s[i]))
}

/// The byte at `p` begins skippable material: blank space, a newline, or a
/// comment opener.
pub open spec fn skippable_at(src: Seq<u8>, p: int) -> bool {
    ||| src[p] == 32 || src[p] == 13 || src[p] == 9 || src[p] == 10
    ||| (src[p] == 47 && p + 1 < src.len() && (src[p + 1] == 47 || src[p + 1] == 42))
}


/// Where a line comment ending at the next newline stops: the position of
/// that newline, or the end of the source.
pub open spec fn line_comment_end(src: Seq<u8>, p: int) -> int
    decreases src.len() - p,
{
    if p < 0 || p >= src.len() {
        src.len() as int
    } else if src[p] == 10 {
        p
    } else {
        line_comment_end(src, p + 1)
    }
}

/// Where skipping ends: the cursor and line after the skippable prefix, and
/// whether every opened block comment was terminated.
pub ghost struct SkipOutcome {
    pub pos: int,
    pub line: int,
    pub terminated: bool,
}

/// Where a block comment whose body starts at `p` stops: just past the
/// first `*/`, counting newlines; unterminated when the source ends first.
pub open spec fn block_comment_skip(src: Seq<u8>, p: int, line: int) -> SkipOutcome
    decreases src.len() - p,
{
    if p < 0 || p >= src.len() {
        SkipOutcome { pos: src.len() as int, line: line, terminated: false }
    } else if src[p] == 42 && p + 1 < src.len() && src[p + 1] == 47 {
        SkipOutcome { pos: p + 2, line: line, terminated: true }
    } else if src[p] == 10 {
        block_comment_skip(src, p + 1, line + 1)
    } else {
        block_comment_skip(src, p + 1, line)
    }
}

/// A line comment stops at or after where it starts, within the source.
proof fn lemma_line_comment_end_bounds(src: Seq<u8>, p: int)
    requires
        0 <= p <= src.len(),
    ensures
        p <= line_comment_end(src, p) <= src.len(),
    decreases src.len() - p,
{
    if p < src.len() && src[p] != 10 {
        lemma_line_comment_end_bounds(src, p + 1);
    }
}

/// A block comment stops at or after where it starts, within the source.
proof fn lemma_block_comment_skip_bounds(src: Seq<u8>, p: int, line: int)
    requires
        0 <= p <= src.len(),
    ensures
        p <= block_comment_skip(src, p, line).pos <= src.len(),
    decreases src.len() - p,
{
    if p < src.len() {
        if src[p] == 42 && p + 1 < src.len() && src[p + 1] == 47 {
        } else if src[p] == 10 {
            lemma_block_comment_skip_bounds(src, p + 1, line + 1);
        } else {
            lemma_block_comment_skip_bounds(src, p + 1, line);
        }
    }
}

/// Where the skippable prefix at `p` ends: blanks and newlines pass one
/// byte at a time, comments pass whole, and the first byte that can start
/// a token stops the skipping. Skipping consumes nothing else.
pub open spec fn skip_spec(src: Seq<u8>, p: int, line: int) -> SkipOutcome
    decreases src.len() - p,
    via skip_spec_dec
{
    if p < 0 || p >= src.len() {
        SkipOutcome { pos: p, line: line, terminated: true }
    } else if src[p] == 32 || src[p] == 13 || src[p] == 9 {
        skip_spec(src, p + 1, line)
    } else if src[p] == 10 {
        skip_spec(src, p + 1, line + 1)
    } else if src[p] == 47 && p + 1 < src.len() && src[p + 1] == 47 {
        skip_spec(src, line_comment_end(src, p + 2), line)
    } else if src[p] == 47 && p + 1 < src.len() && src[p + 1] == 42 {
        let b = block_comment_skip(src, p + 2, line);
        if b.terminated {
            skip_spec(src, b.pos, b.line)
        } else {
            SkipOutcome { pos: b.pos, line: b.line, terminated: false }
        }
    } else {
        SkipOutcome { pos: p, line: line, terminated: true }
    }
}

#[via_fn]
proof fn skip_spec_dec(src: Seq<u8>, p: int, line: int) {
    if 0 <= p && p < src.len() && src[p] == 47 && p + 1 < src.len() {
        if src[p + 1] == 47 {
            lemma_line_comment_end_bounds(src, p + 2);
        }
        if src[p + 1] == 42 {
            lemma_block_comment_skip_bounds(src, p + 2, line);
        }
    }
}

/// The byte may begin a token: punctuation, an operator, a quote, a digit
/// or a letter.
pub open spec fn token_start_byte(b: u8) -> bool {
    ||| b == 40 || b == 41 || b == 123 || b == 125 || b == 59 || b == 44 || b == 46 || b == 45
    ||| b == 43 || b == 47 || b == 42 || b == 33 || b == 61 || b == 60 || b == 62 || b == 63
    ||| b == 58 || b == 34
    ||| is_digit(b) || is_alpha(b)
}

/// The newlines in a byte sequence.
pub open spec fn newline_count(s: Seq<u8>) -> int
    decreases s.len(),
{
    if s.len() == 0 {
        0
    } else {
        newline_count(s.drop_last()) + if s.last() == 10 {
            1int
        } else {
            0
        }
    }
}

/// Extending a prefix by one byte adds that byte's newline, if it is one.
proof fn lemma_newline_snoc(src: Seq<u8>, c: int)
    requires
        0 <= c < src.len(),
    ensures
        newline_count(src.subrange(0, c + 1)) == newline_count(src.subrange(0, c)) + if src[c]
            == 10 {
            1int
        } else {
            0
        },
{
    assert(src.subrange(0, c + 1).drop_last() =~= src.subrange(0, c));
    assert(src.subrange(0, c + 1).last() == src[c]);
}

/// One of the sixteen reserved-word token types.
pub open spec fn is_keyword_tt(tt: TokenType) -> bool {
    ||| tt == TokenType::And || tt == TokenType::Class || tt == TokenType::Else || tt
        == TokenType::False
    ||| tt == TokenType::For || tt == TokenType::Fun || tt == TokenType::If || tt == TokenType::Nil
    ||| tt == TokenType::Or || tt == TokenType::Print || tt == TokenType::Return || tt
        == TokenType::Super
    ||| tt == TokenType::This || tt == TokenType::True || tt == TokenType::Var || tt
        == TokenType::While
}

/// The token cannot extend further: the byte after its lexeme does not
/// continue it (maximal munch). A string's interior holds no quote, so the
/// closing quote is the first one after the opener.
pub open spec fn token_maximal(tt: TokenType, src: Seq<u8>, start: int, end: int) -> bool {
    match tt {
        TokenType::Number => (end == src.len() || !is_digit(src[end])) && (all_digits(
            src.subrange(start, end),
        ) ==> !(end + 1 < src.len() && src[end] == 46 && is_digit(src[end + 1]))),
        TokenType::StringToken => forall|i: int| start < i < end - 1 ==> src[i] != 34,
        TokenType::Minus | TokenType::Plus | TokenType::Slash | TokenType::Star | TokenType::Bang
            | TokenType::Equal | TokenType::Less | TokenType::Greater => end == src.len()
            || src[end] != 61,
        TokenType::Identifier | TokenType::And | TokenType::Class | TokenType::Else
            | TokenType::False | TokenType::For | TokenType::Fun | TokenType::If | TokenType::Nil
            | TokenType::Or | TokenType::Print | TokenType::Return | TokenType::Super
            | TokenType::This | TokenType::True | TokenType::Var | TokenType::While => end
            == src.len() || !is_alnum(src[end]),
        _ => true,
    }
}

/// The keyword an identifier-shaped lexeme denotes, or `Identifier` when it
/// is none of the sixteen reserved words.
pub open spec fn keyword_type(s: Seq<u8>) -> TokenType {
    if s == seq![97u8, 110, 100] {  // and
        TokenType::And
    } else if s == seq![99u8, 108, 97, 115, 115] {  // class
        TokenType::Class
    } else if s == seq![101u8, 108, 115, 101] {  // else
        TokenType::Else
    } else if s == seq![102u8, 97, 108, 115, 101] {  // false
        TokenType::False
    } else if s == seq![102u8, 111, 114] {  // for
        TokenType::For
    } else if s == seq![102u8, 117, 110] {  // fun
        TokenType::Fun
    } else if s == seq![105u8, 102] {  // if
        TokenType::If
    } else if s == seq![110u8, 105, 108] {  // nil
        TokenType::Nil
    } else if s == seq![111u8, 114] {  // or
        TokenType::Or
    } else if s == seq![112u8, 114, 105, 110, 116] {  // print
        TokenType::Print
    } else if s == seq![114u8, 101, 116, 117, 114, 110] {  // return
        TokenType::Return
    } else if s == seq![115u8, 117, 112, 101, 114] {  // super
        TokenType::Super
    } else if s == seq![116u8, 104, 105, 115] {  // this
        TokenType::This
    } else if s == seq![116u8, 114, 117, 101] {  // true
        TokenType::True
    } else if s == seq![118u8, 97, 114] {  // var
        TokenType::Var
    } else if s == seq![119u8, 104, 105, 108, 101] {  // while
        TokenType::While
    } else {
        TokenType::Identifier
    }
}

/// What each token type's lexeme must look like.
pub open spec fn token_lexeme_ok(tt: TokenType, lex: Seq<u8>) -> bool {
    match tt {
        TokenType::LeftParen => lex == seq![40u8],
        TokenType::RightParen => lex == seq![41u8],
        TokenType::LeftBrace => lex == seq![123u8],
        TokenType::RightBrace => lex == seq![125u8],
        TokenType::Comma => lex == seq![44u8],
        TokenType::Dot => lex == seq![46u8],
        TokenType::Minus => lex == seq![45u8],
        TokenType::Plus => lex == seq![43u8],
        TokenType::Semicolon => lex == seq![59u8],
        TokenType::Slash => lex == seq![47u8],
        TokenType::Star => lex == seq![42u8],
        TokenType::Bang => lex == seq![33u8],
        TokenType::BangEqual => lex == seq![33u8, 61],
        TokenType::Equal => lex == seq![61u8],
        TokenType::MinusEqual => lex == seq![45u8, 61],
        TokenType::PlusEqual => lex == seq![43u8, 61],
        TokenType::SlashEqual => lex == seq![47u8, 61],
        TokenType::StarEqual => lex == seq![42u8, 61],
        TokenType::EqualEqual => lex == seq![61u8, 61],
        TokenType::Greater => lex == seq![62u8],
        TokenType::GreaterEqual => lex == seq![62u8, 61],
        TokenType::Less => lex == seq![60u8],
        TokenType::LessEqual => lex == seq![60u8, 61],
        TokenType::Identifier => is_ident_lexeme(lex) && keyword_type(lex)
            == TokenType::Identifier,
        TokenType::StringToken => lex.len() >= 2 && lex[0] == 34 && lex[lex.len() - 1] == 34,
        TokenType::Number => is_number_lexeme(lex),
        TokenType::Eof => lex.len() == 0,
        TokenType::Question => lex == seq![63u8],
        TokenType::Colon => lex == seq![58u8],
        _ => is_ident_lexeme(lex) && keyword_type(lex) == tt,
    }
}

/// A reason the scanner rejected the input at a position.
#[derive(Copy, Clone, Debug, PartialEq, Eq, Structural)]
pub enum ScanError {
    UnexpectedCharacter,
    UnterminatedString,
    UnterminatedComment,
}

impl ScanError {
    /// The diagnostic text for this error.
    pub fn message(&self) -> (r: &'static str)
        ensures
            *self == ScanError::UnexpectedCharacter ==> r@ == "Unexpected character."@,
            *self == ScanError::UnterminatedString ==> r@ == "Unterminated string."@,
            *self == ScanError::UnterminatedComment ==> r@ == "Unterminated comment."@,
    {
        match self {
            ScanError::UnexpectedCharacter => "Unexpected character.",
            ScanError::UnterminatedString => "Unterminated string.",
            ScanError::UnterminatedComment => "Unterminated comment.",
        }
    }
}

/// A classified lexeme: its category, its byte range in the source, and the
/// line it ended on.
#[derive(Copy, Clone, Debug, PartialEq, Eq, Structural)]
pub struct Token {
    pub token_type: TokenType,
    pub start: usize,
    pub end: usize,
    pub line: usize,
}

/// The lazy token producer.
pub struct Scanner {
    pub source: Vec<u8>,
    pub start: usize,
    pub current: usize,
    pub line: usize,
}

/// An ASCII decimal digit.
fn digit(b: u8) -> (r: bool)
    ensures
        r == is_digit(b),
{
    48 <= b && b <= 57
}

/// An ASCII letter.
fn alpha(b: u8) -> (r: bool)
    ensures
        r == is_alpha(b),
{
    (65 <= b && b <= 90) || (97 <= b && b <= 122)
}

impl Scanner {
    /// The scanner's invariant: the lexeme window sits inside the source and
    /// the line count never outruns the cursor.
    pub open spec fn wf(&self) -> bool {
        &&& self.start <= self.current <= self.source@.len()
        &&& self.source@.len() < usize::MAX
        &&& 1 <= self.line
        &&& self.line <= self.current + 1
    }

    /// The line counter names exactly the line the cursor stands on: one
    /// more than the newlines already consumed.
    pub open spec fn line_synced(&self) -> bool {
        self.line == 1 + newline_count(self.source@.subrange(0, self.current as int))
    }

    /// A scanner positioned at the beginning of the source, on line 1.
    pub fn new(source: Vec<u8>) -> (r: Scanner)
        requires
            source@.len() < usize::MAX,
        ensures
            r.wf(),
            r.source@ == source@,
            r.start == 0,
            r.current == 0,
            r.line == 1,
            r.line_synced(),
    {
        proof {
            assert(source@.subrange(0, 0) =~= Seq::<u8>::empty());
        }
        Scanner { start: 0, current: 0, line: 1, source }
    }

    /// Whether the cursor has consumed the whole source.
    pub fn is_at_end(&self) -> (r: bool)
        ensures
            r == (self.current == self.source@.len()),
    {
        self.current == self.source.len()
    }

    /// A token of the given type over the current lexeme window.
    pub fn make_token(&self, token_type: TokenType) -> (t: Token)
        ensures
            t.token_type == token_type,
            t.start == self.start,
            t.end == self.current,
            t.line == self.line,
    {
        Token { token_type, start: self.start, end: self.current, line: self.line }
    }

    /// Consumes and returns the byte at the cursor.
    pub fn advance(&mut self) -> (r: u8)
        requires
            old(self).wf(),
            old(self).current < old(self).source@.len(),
        ensures
            final(self).wf(),
            final(self).source@ == old(self).source@,
            final(self).start == old(self).start,
            final(self).line == old(self).line,
            final(self).current == old(self).current + 1,
            r == old(self).source@[old(self).current as int],
    {
        self.current = self.current + 1;
        self.source[self.current - 1]
    }

    /// The byte at the cursor, or 0 at the end of the source.
    pub fn peek(&self) -> (r: u8)
        ensures
            r == (if self.current < self.source@.len() {
                self.source@[self.current as int]
            } else {
                0u8
            }),
    {
        if self.current < self.source.len() {
            self.source[self.current]
        } else {
            0
        }
    }

    /// The byte after the cursor, or 0 past the end of the source.
    pub fn peek_next(&self) -> (r: u8)
        requires
            self.wf(),
        ensures
            r == (if self.current + 1 < self.source@.len() {
                self.source@[self.current + 1]
            } else {
                0u8
            }),
    {
        if self.current + 1 < self.source.len() {
            self.source[self.current + 1]
        } else {
            0
        }
    }

    /// Consumes the byte at the cursor when it equals `expected`.
    pub fn match_char(&mut self, expected: u8) -> (r: bool)
        requires
            old(self).wf(),
        ensures
            final(self).wf(),
            final(self).source@ == old(self).source@,
            final(self).start == old(self).start,
            final(self).line == old(self).line,
            r == (old(self).current < old(self).source@.len() && old(self).source@[old(
                self,
            ).current as int] == expected),
            final(self).current == old(self).current + (if r {
                1int
            } else {
                0int
            }),
    {
        if self.is_at_end() {
            false
        } else if self.peek() != expected {
            false
        } else {
            self.current = self.current + 1;
            true
        }
    }

    /// Whether the byte at the cursor is a digit.
    fn peek_is_digit(&self) -> (r: bool)
        ensures
            r == (self.current < self.source@.len() && is_digit(self.source@[self.current as int])),
    {
        let c = self.peek();
        digit(c)
    }

    /// Whether the byte at the cursor continues an identifier.
    fn peek_is_alnum(&self) -> (r: bool)
        ensures
            r == (self.current < self.source@.len() && is_alnum(self.source@[self.current as int])),
    {
        let c = self.peek();
        alpha(c) || digit(c)
    }

    /// Whether a line comment continues at the cursor.
    fn comment_continues(&self) -> (r: bool)
        requires
            self.wf(),
        ensures
            r == (self.current < self.source@.len() && self.source@[self.current as int] != 10),
    {
        !self.is_at_end() && self.peek() != 10
    }

    /// Classifies a one-or-two-byte operator: the compound type when the
    /// next byte is `expected`, the simple type otherwise.
    pub fn get_token_type(&mut self, expected: u8, matched: TokenType, unmatched: TokenType) -> (r:
        TokenType)
        requires
            old(self).wf(),
        ensures
            final(self).wf(),
            final(self).source@ == old(self).source@,
            final(self).start == old(self).start,
            final(self).line == old(self).line,
            if old(self).current < old(self).source@.len() && old(self).source@[old(
                self,
            ).current as int] == expected {
                r == matched && final(self).current == old(self).current + 1
            } else {
                r == unmatched && final(self).current == old(self).current
            },
    {
        if self.match_char(expected) {
            matched
        } else {
            unmatched
        }
    }

    /// Consumes bytes up to, but not including, the next newline.
    fn skip_line_comment(&mut self)
        requires
            old(self).wf(),
            old(self).line_synced(),
        ensures
            final(self).wf(),
            final(self).line_synced(),
            final(self).source@ == old(self).source@,
            final(self).start == old(self).start,
            final(self).line == old(self).line,
            final(self).current >= old(self).current,
            final(self).current == final(self).source@.len()
                || final(self).source@[final(self).current as int] == 10,
            forall|i: int|
                old(self).current <= i < final(self).current ==> final(self).source@[i] != 10,
            final(self).current == line_comment_end(final(self).source@, old(self).current as int),
    {
        while self.comment_continues()
            invariant
                self.wf(),
                self.line_synced(),
                self.source@ == old(self).source@,
                self.start == old(self).start,
                self.line == old(self).line,
                self.current >= old(self).current,
                forall|i: int| old(self).current <= i < self.current ==> self.source@[i] != 10,
                line_comment_end(self.source@, old(self).current as int) == line_comment_end(
                    self.source@,
                    self.current as int,
                ),
            decreases self.source@.len() - self.current,
        {
            self.advance();
            proof {
                lemma_newline_snoc(self.source@, self.current - 1);
            }
        }
    }

    /// Consumes bytes up to and including the closing `*/` of a block
    /// comment, counting newlines; an unterminated comment is an error.
    fn skip_block_comment(&mut self) -> (r: Result<(), ScanError>)
        requires
            old(self).wf(),
            old(self).line_synced(),
        ensures
            final(self).wf(),
            final(self).line_synced(),
            final(self).source@ == old(self).source@,
            final(self).start == old(self).start,
            final(self).current >= old(self).current,
            r matches Err(e) ==> e == ScanError::UnterminatedComment && final(self).current
                == final(self).source@.len(),
            r is Ok ==> {
                &&& final(self).current >= old(self).current + 2
                &&& final(self).source@[final(self).current - 2] == 42
                &&& final(self).source@[final(self).current - 1] == 47
            },
            ({
                let b = block_comment_skip(
                    old(self).source@,
                    old(self).current as int,
                    old(self).line as int,
                );
                &&& final(self).current == b.pos
                &&& final(self).line == b.line
                &&& (r is Ok <==> b.terminated)
            }),
            forall|i: int|
                old(self).current <= i < final(self).current - 2 ==> !((#[trigger] final(
                    self).source@[i]) == 42 && i + 1 < final(self).source@.len() && final(
                    self).source@[i + 1] == 47),
    {
        loop
            invariant
                self.wf(),
                self.line_synced(),
                self.source@ == old(self).source@,
                self.start == old(self).start,
                self.current >= old(self).current,
                forall|i: int|
                    old(self).current <= i < self.current ==> !((#[trigger] self.source@[i]) == 42
                        && i + 1 < self.source@.len() && self.source@[i + 1] == 47),
                block_comment_skip(
                    self.source@,
                    old(self).current as int,
                    old(self).line as int,
                ) == block_comment_skip(self.source@, self.current as int, self.line as int),
            decreases self.source@.len() - self.current,
        {
            if self.is_at_end() {
                return Err(ScanError::UnterminatedComment);
            }
            let d = self.peek();
            if d == 42 && self.peek_next() == 47 {
                self.advance();
                self.advance();
                proof {
                    lemma_newline_snoc(self.source@, self.current - 2);
                    lemma_newline_snoc(self.source@, self.current - 1);
                }
                return Ok(());
            }
            if d == 10 {
                self.advance();
                self.line = self.line + 1;
                proof {
                    lemma_newline_snoc(self.source@, self.current - 1);
                }
            } else {
                self.advance();
                proof {
                    lemma_newline_snoc(self.source@, self.current - 1);
                }
            }
        }
    }

    /// Skips whitespace and comments, counting newlines. Fails only on an
    /// unterminated block comment.
    fn skip_whitespace(&mut self) -> (r: Result<(), ScanError>)
        requires
            old(self).wf(),
            old(self).line_synced(),
        ensures
            final(self).wf(),
            final(self).line_synced(),
            final(self).source@ == old(self).source@,
            final(self).start == old(self).start,
            final(self).current >= old(self).current,
            r is Ok ==> final(self).current == final(self).source@.len() || !skippable_at(
                final(self).source@,
                final(self).current as int,
            ),
            r matches Err(e) ==> {
                &&& final(self).current > old(self).current
                &&& e == ScanError::UnterminatedComment
                &&& final(self).current == final(self).source@.len()
            },
            ({
                let s = skip_spec(
                    old(self).source@,
                    old(self).current as int,
                    old(self).line as int,
                );
                &&& final(self).current == s.pos
                &&& final(self).line == s.line
                &&& (r is Ok <==> s.terminated)
            }),
    {
        loop
            invariant
                self.wf(),
                self.line_synced(),
                self.source@ == old(self).source@,
                self.start == old(self).start,
                self.current >= old(self).current,
                skip_spec(self.source@, old(self).current as int, old(self).line as int)
                    == skip_spec(self.source@, self.current as int, self.line as int),
            decreases self.source@.len() - self.current,
        {
            if self.is_at_end() {
                return Ok(());
            }
            let c = self.peek();
            if c == 32 || c == 13 || c == 9 {
                self.advance();
                proof {
                    lemma_newline_snoc(self.source@, self.current - 1);
                }
            } else if c == 10 {
                self.advance();
                self.line = self.line + 1;
                proof {
                    lemma_newline_snoc(self.source@, self.current - 1);
                }
            } else if c == 47 {
                let c2 = self.peek_next();
                if c2 == 47 {
                    self.advance();
                    self.advance();
                    proof {
                        lemma_newline_snoc(self.source@, self.current - 2);
                        lemma_newline_snoc(self.source@, self.current - 1);
                    }
                    self.skip_line_comment();
                } else if c2 == 42 {
                    self.advance();
                    self.advance();
                    proof {
                        lemma_newline_snoc(self.source@, self.current - 2);
                        lemma_newline_snoc(self.source@, self.current - 1);
                    }
                    let r = self.skip_block_comment();
                    if let Err(e) = r {
                        return Err(e);
                    }
                } else {
                    return Ok(());
                }
            } else {
                return Ok(());
            }
        }
    }

    /// Scans a string literal; the opening quote has been consumed. The
    /// lexeme includes both quotes; embedded newlines count toward `line`.
    fn string(&mut self) -> (r: Result<Token, ScanError>)
        requires
            old(self).wf(),
            old(self).line_synced(),
            old(self).current == old(self).start + 1,
            old(self).source@[old(self).start as int] == 34,
        ensures
            final(self).wf(),
            final(self).line_synced(),
            final(self).source@ == old(self).source@,
            final(self).start == old(self).start,
            final(self).current >= old(self).current,
            match r {
                Ok(t) => {
                    &&& t.token_type == TokenType::StringToken
                    &&& t.start == final(self).start
                    &&& t.end == final(self).current
                    &&& t.line == final(self).line
                    &&& t.start < t.end <= final(self).source@.len()
                    &&& token_lexeme_ok(
                        t.token_type,
                        final(self).source@.subrange(t.start as int, t.end as int),
                    )
                    &&& token_maximal(t.token_type, final(self).source@, t.start as int, t.end as int)
                },
                Err(e) => {
                    &&& e == ScanError::UnterminatedString
                    &&& final(self).current == final(self).source@.len()
                    &&& forall|i: int|
                        final(self).start < i < final(self).source@.len() ==> final(self).source@[i] != 34
                },
            },
    {
        loop
            invariant
                self.wf(),
                self.line_synced(),
                self.source@ == old(self).source@,
                self.start == old(self).start,
                self.current >= old(self).current,
                self.current > self.start,
                self.source@[self.start as int] == 34,
                forall|i: int| self.start < i < self.current ==> self.source@[i] != 34,
            decreases self.source@.len() - self.current,
        {
            if self.is_at_end() {
                return Err(ScanError::UnterminatedString);
            }
            if self.peek() == 34 {
                self.advance();
                proof {
                    lemma_newline_snoc(self.source@, self.current - 1);
                }
                let t = self.make_token(TokenType::StringToken);
                proof {
                    let lex = self.source@.subrange(t.start as int, t.end as int);
                    assert(lex[0] == self.source@[t.start as int]);
                    assert(lex[lex.len() - 1] == self.source@[t.end - 1]);
                }
                return Ok(t);
            }
            if self.peek() == 10 {
                self.advance();
                self.line = self.line + 1;
                proof {
                    lemma_newline_snoc(self.source@, self.current - 1);
                }
            } else {
                self.advance();
                proof {
                    lemma_newline_snoc(self.source@, self.current - 1);
                }
            }
        }
    }

    /// Scans a number literal; the first digit has been consumed.
    fn number(&mut self) -> (t: Token)
        requires
            old(self).wf(),
            old(self).line_synced(),
            old(self).current == old(self).start + 1,
            is_digit(old(self).source@[old(self).start as int]),
        ensures
            final(self).wf(),
            final(self).line_synced(),
            final(self).source@ == old(self).source@,
            final(self).start == old(self).start,
            final(self).line == old(self).line,
            final(self).current >= old(self).current,
            t.token_type == TokenType::Number,
            t.start == final(self).start,
            t.end == final(self).current,
            t.line == final(self).line,
            t.start < t.end <= final(self).source@.len(),
            token_lexeme_ok(
                t.token_type,
                final(self).source@.subrange(t.start as int, t.end as int),
            ),
            token_maximal(t.token_type, final(self).source@, t.start as int, t.end as int),
    {
        while self.peek_is_digit()
            invariant
                self.wf(),
                self.line_synced(),
                self.source@ == old(self).source@,
                self.start == old(self).start,
                self.line == old(self).line,
                self.current > self.start,
                all_digits(self.source@.subrange(self.start as int, self.current as int)),
            decreases self.source@.len() - self.current,
        {
            proof {
                let pre = self.source@.subrange(self.start as int, self.current as int);
                assert(self.source@.subrange(self.start as int, self.current + 1) =~= pre.push(
                    self.source@[self.current as int],
                ));
            }
            self.advance();
            proof {
                lemma_newline_snoc(self.source@, self.current - 1);
            }
        }
        let d1 = self.peek();
        let d2 = self.peek_next();
        if d1 == 46 && 48 <= d2 && d2 <= 57 {
            let ghost dot = self.current as int;
            self.advance();
            self.advance();
            proof {
                lemma_newline_snoc(self.source@, self.current - 2);
                lemma_newline_snoc(self.source@, self.current - 1);
            }
            while self.peek_is_digit()
                invariant
                    self.wf(),
                    self.line_synced(),
                    self.source@ == old(self).source@,
                    self.start == old(self).start,
                    self.line == old(self).line,
                    self.start < dot,
                    dot + 2 <= self.current <= self.source@.len(),
                    self.source@[dot] == 46,
                    all_digits(self.source@.subrange(self.start as int, dot)),
                    all_digits(self.source@.subrange(dot + 1, self.current as int)),
                decreases self.source@.len() - self.current,
            {
                proof {
                    let pre = self.source@.subrange(dot + 1, self.current as int);
                    assert(self.source@.subrange(dot + 1, self.current + 1) =~= pre.push(
                        self.source@[self.current as int],
                    ));
                }
                self.advance();
                proof {
                    lemma_newline_snoc(self.source@, self.current - 1);
                }
            }
            let t = self.make_token(TokenType::Number);
            proof {
                let lex = self.source@.subrange(t.start as int, t.end as int);
                let i = dot - t.start;
                assert(lex.subrange(0, i) =~= self.source@.subrange(t.start as int, dot));
                assert(lex.subrange(i + 1, lex.len() as int) =~= self.source@.subrange(
                    dot + 1,
                    t.end as int,
                ));
                assert(lex[i] == self.source@[dot]);
                assert(1 <= i && i + 2 <= lex.len() && lex[i] == 46 && all_digits(
                    lex.subrange(0, i),
                ) && all_digits(lex.subrange(i + 1, lex.len() as int)));
                assert(!all_digits(lex));
            }
            t
        } else {
            let t = self.make_token(TokenType::Number);
            proof {
                let lex = self.source@.subrange(t.start as int, t.end as int);
                assert(lex.len() > 0 && all_digits(lex));
            }
            t
        }
    }

    /// Compares the tail of the current lexeme, from offset `from`, against
    /// `rest`; on a full match of the right length the keyword type stands,
    /// otherwise the lexeme is a plain identifier.
    pub fn check_keyword(&self, from: usize, rest: &Vec<u8>, token_type: TokenType) -> (r:
        TokenType)
        requires
            self.wf(),
            from + rest@.len() <= usize::MAX,
        ensures
            r == (if self.current - self.start == from + rest@.len() && self.source@.subrange(
                self.start + from,
                self.current as int,
            ) == rest@ {
                token_type
            } else {
                TokenType::Identifier
            }),
    {
        let len_lex = self.current - self.start;
        if len_lex != from + rest.len() {
            return TokenType::Identifier;
        }
        let ghost tail = self.source@.subrange(self.start + from, self.current as int);
        let mut i: usize = 0;
        while i < rest.len()
            invariant
                self.wf(),
                from + rest@.len() <= usize::MAX,
                i <= rest@.len(),
                self.current - self.start == from + rest@.len(),
                tail == self.source@.subrange(self.start + from, self.current as int),
                forall|j: int| 0 <= j < i ==> #[trigger] tail[j] == rest@[j],
            decreases rest@.len() - i,
        {
            proof {
                assert(tail[i as int] == self.source@[self.start + from + i]);
            }
            if self.source[self.start + from + i] != rest[i] {
                proof {
                    assert(tail[i as int] != rest@[i as int]);
                }
                return TokenType::Identifier;
            }
            i = i + 1;
        }
        proof {
            assert(tail =~= rest@);
        }
        token_type
    }

    /// Resolves an identifier-shaped lexeme against the keyword trie.
    fn identifier_type(&self) -> (r: TokenType)
        requires
            self.wf(),
            self.start < self.current,
            is_ident_lexeme(self.source@.subrange(self.start as int, self.current as int)),
        ensures
            r == keyword_type(self.source@.subrange(self.start as int, self.current as int)),
    {
        let ghost lex = self.source@.subrange(self.start as int, self.current as int);
        proof {
            assert(lex[0] == self.source@[self.start as int]);
        }
        let c0 = self.source[self.start];
        if c0 == 97 {  // and
            let rest: Vec<u8> = vec![110u8, 100];
            let r = self.check_keyword(1, &rest, TokenType::And);
            proof {
                lemma_kw_a(lex);
                assert(lex.subrange(1, lex.len() as int) =~= self.source@.subrange(
                    self.start + 1,
                    self.current as int,
                ));
                assert(seq![97u8, 110, 100].subrange(1, 3) =~= seq![110u8, 100]);
                if self.current - self.start == 1 + rest@.len() && self.source@.subrange(
                    self.start + 1,
                    self.current as int,
                ) == rest@ {
                    assert(lex =~= seq![97u8, 110, 100]);
                } else {
                    assert(lex != seq![97u8, 110, 100]);
                }
            }
            r
        } else if c0 == 99 {  // class
            let rest: Vec<u8> = vec![108u8, 97, 115, 115];
            let r = self.check_keyword(1, &rest, TokenType::Class);
            proof {
                lemma_kw_c(lex);
                assert(lex.subrange(1, lex.len() as int) =~= self.source@.subrange(
                    self.start + 1,
                    self.current as int,
                ));
                assert(seq![99u8, 108, 97, 115, 115].subrange(1, 5) =~= seq![108u8, 97, 115, 115]);
                if self.current - self.start == 1 + rest@.len() && self.source@.subrange(
                    self.start + 1,
                    self.current as int,
                ) == rest@ {
                    assert(lex =~= seq![99u8, 108, 97, 115, 115]);
                } else {
                    assert(lex != seq![99u8, 108, 97, 115, 115]);
                }
            }
            r
        } else if c0 == 101 {  // else
            let rest: Vec<u8> = vec![108u8, 115, 101];
            let r = self.check_keyword(1, &rest, TokenType::Else);
            proof {
                lemma_kw_e(lex);
                assert(lex.subrange(1, lex.len() as int) =~= self.source@.subrange(
                    self.start + 1,
                    self.current as int,
                ));
                assert(seq![101u8, 108, 115, 101].subrange(1, 4) =~= seq![108u8, 115, 101]);
                if self.current - self.start == 1 + rest@.len() && self.source@.subrange(
                    self.start + 1,
                    self.current as int,
                ) == rest@ {
                    assert(lex =~= seq![101u8, 108, 115, 101]);
                } else {
                    assert(lex != seq![101u8, 108, 115, 101]);
                }
            }
            r
        } else if c0 == 102 {
            if self.current - self.start > 1 {
                proof {
                    assert(lex[1] == self.source@[self.start + 1]);
                }
                let c1 = self.source[self.start + 1];
                if c1 == 97 {
                    let rest: Vec<u8> = vec![108u8, 115, 101];
                    let r = self.check_keyword(2, &rest, TokenType::False);
                    proof {
                        lemma_kw_f(lex);
                        assert(lex.subrange(2, lex.len() as int) =~= self.source@.subrange(
                            self.start + 2,
                            self.current as int,
                        ));
                        assert(seq![102u8, 97, 108, 115, 101].subrange(2, 5) =~= seq![108u8, 115, 101]);
                        if self.current - self.start == 2 + rest@.len() && self.source@.subrange(
                            self.start + 2,
                            self.current as int,
                        ) == rest@ {
                            assert(lex =~= seq![102u8, 97, 108, 115, 101]);
                        } else {
                            assert(lex != seq![102u8, 97, 108, 115, 101]);
                        }
                    }
                    r
                } else if c1 == 111 {
                    let mut rest: Vec<u8> = Vec::new();
                    rest.push(114u8);
                    proof {
                        assert(rest@ =~= seq![114u8]);
                    }
                    let r = self.check_keyword(2, &rest, TokenType::For);
                    proof {
                        lemma_kw_f(lex);
                        assert(lex.subrange(2, lex.len() as int) =~= self.source@.subrange(
                            self.start + 2,
                            self.current as int,
                        ));
                        assert(seq![102u8, 111, 114].subrange(2, 3) =~= seq![114u8]);
                        if self.current - self.start == 2 + rest@.len() && self.source@.subrange(
                            self.start + 2,
                            self.current as int,
                        ) == rest@ {
                            assert(lex[2] == lex.subrange(2, lex.len() as int)[0]);
                            assert(lex =~= seq![102u8, 111, 114]);
                        } else {
                            assert(lex != seq![102u8, 111, 114]);
                        }
                    }
                    r
                } else if c1 == 117 {
                    let mut rest: Vec<u8> = Vec::new();
                    rest.push(110u8);
                    proof {
                        assert(rest@ =~= seq![110u8]);
                    }
                    let r = self.check_keyword(2, &rest, TokenType::Fun);
                    proof {
                        lemma_kw_f(lex);
                        assert(lex.subrange(2, lex.len() as int) =~= self.source@.subrange(
                            self.start + 2,
                            self.current as int,
                        ));
                        assert(seq![102u8, 117, 110].subrange(2, 3) =~= seq![110u8]);
                        if self.current - self.start == 2 + rest@.len() && self.source@.subrange(
                            self.start + 2,
                            self.current as int,
                        ) == rest@ {
                            assert(lex[2] == lex.subrange(2, lex.len() as int)[0]);
                            assert(lex =~= seq![102u8, 117, 110]);
                        } else {
                            assert(lex != seq![102u8, 117, 110]);
                        }
                    }
                    r
                } else {
                    proof {
                        lemma_kw_f(lex);
                        lemma_kw_first_bytes();
                    }
                    TokenType::Identifier
                }
            } else {
                proof {
                    lemma_kw_f(lex);
                }
                TokenType::Identifier
            }
        } else if c0 == 105 {  // if
            let mut rest: Vec<u8> = Vec::new();
                    rest.push(102u8);
                    proof {
                        assert(rest@ =~= seq![102u8]);
                    }
            let r = self.check_keyword(1, &rest, TokenType::If);
            proof {
                lemma_kw_i(lex);
                assert(lex.subrange(1, lex.len() as int) =~= self.source@.subrange(
                    self.start + 1,
                    self.current as int,
                ));
                assert(seq![105u8, 102].subrange(1, 2) =~= seq![102u8]);
                if self.current - self.start == 1 + rest@.len() && self.source@.subrange(
                    self.start + 1,
                    self.current as int,
                ) == rest@ {
                    assert(lex[1] == lex.subrange(1, lex.len() as int)[0]);
                    assert(lex =~= seq![105u8, 102]);
                } else {
                    assert(lex != seq![105u8, 102]);
                }
            }
            r
        } else if c0 == 110 {  // nil
            let rest: Vec<u8> = vec![105u8, 108];
            let r = self.check_keyword(1, &rest, TokenType::Nil);
            proof {
                lemma_kw_n(lex);
                assert(lex.subrange(1, lex.len() as int) =~= self.source@.subrange(
                    self.start + 1,
                    self.current as int,
                ));
                assert(seq![110u8, 105, 108].subrange(1, 3) =~= seq![105u8, 108]);
                if self.current - self.start == 1 + rest@.len() && self.source@.subrange(
                    self.start + 1,
                    self.current as int,
                ) == rest@ {
                    assert(lex =~= seq![110u8, 105, 108]);
                } else {
                    assert(lex != seq![110u8, 105, 108]);
                }
            }
            r
        } else if c0 == 111 {  // or
            let mut rest: Vec<u8> = Vec::new();
                    rest.push(114u8);
                    proof {
                        assert(rest@ =~= seq![114u8]);
                    }
            let r = self.check_keyword(1, &rest, TokenType::Or);
            proof {
                lemma_kw_o(lex);
                assert(lex.subrange(1, lex.len() as int) =~= self.source@.subrange(
                    self.start + 1,
                    self.current as int,
                ));
                assert(seq![111u8, 114].subrange(1, 2) =~= seq![114u8]);
                if self.current - self.start == 1 + rest@.len() && self.source@.subrange(
                    self.start + 1,
                    self.current as int,
                ) == rest@ {
                    assert(lex[1] == lex.subrange(1, lex.len() as int)[0]);
                    assert(lex =~= seq![111u8, 114]);
                } else {
                    assert(lex != seq![111u8, 114]);
                }
            }
            r
        } else if c0 == 112 {  // print
            let rest: Vec<u8> = vec![114u8, 105, 110, 116];
            let r = self.check_keyword(1, &rest, TokenType::Print);
            proof {
                lemma_kw_p(lex);
                assert(lex.subrange(1, lex.len() as int) =~= self.source@.subrange(
                    self.start + 1,
                    self.current as int,
                ));
                assert(seq![112u8, 114, 105, 110, 116].subrange(1, 5) =~= seq![114u8, 105, 110, 116]);
                if self.current - self.start == 1 + rest@.len() && self.source@.subrange(
                    self.start + 1,
                    self.current as int,
                ) == rest@ {
                    assert(lex =~= seq![112u8, 114, 105, 110, 116]);
                } else {
                    assert(lex != seq![112u8, 114, 105, 110, 116]);
                }
            }
            r
        } else if c0 == 114 {  // return
            let rest: Vec<u8> = vec![101u8, 116, 117, 114, 110];
            let r = self.check_keyword(1, &rest, TokenType::Return);
            proof {
                lemma_kw_r(lex);
                assert(lex.subrange(1, lex.len() as int) =~= self.source@.subrange(
                    self.start + 1,
                    self.current as int,
                ));
                assert(seq![114u8, 101, 116, 117, 114, 110].subrange(1, 6) =~= seq![101u8, 116, 117, 114, 110]);
                if self.current - self.start == 1 + rest@.len() && self.source@.subrange(
                    self.start + 1,
                    self.current as int,
                ) == rest@ {
                    assert(lex =~= seq![114u8, 101, 116, 117, 114, 110]);
                } else {
                    assert(lex != seq![114u8, 101, 116, 117, 114, 110]);
                }
            }
            r
        } else if c0 == 115 {  // super
            let rest: Vec<u8> = vec![117u8, 112, 101, 114];
            let r = self.check_keyword(1, &rest, TokenType::Super);
            proof {
                lemma_kw_s(lex);
                assert(lex.subrange(1, lex.len() as int) =~= self.source@.subrange(
                    self.start + 1,
                    self.current as int,
                ));
                assert(seq![115u8, 117, 112, 101, 114].subrange(1, 5) =~= seq![117u8, 112, 101, 114]);
                if self.current - self.start == 1 + rest@.len() && self.source@.subrange(
                    self.start + 1,
                    self.current as int,
                ) == rest@ {
                    assert(lex =~= seq![115u8, 117, 112, 101, 114]);
                } else {
                    assert(lex != seq![115u8, 117, 112, 101, 114]);
                }
            }
            r
        } else if c0 == 116 {
            if self.current - self.start > 1 {
                proof {
                    assert(lex[1] == self.source@[self.start + 1]);
                }
                let c1 = self.source[self.start + 1];
                if c1 == 104 {
                    let rest: Vec<u8> = vec![105u8, 115];
                    let r = self.check_keyword(2, &rest, TokenType::This);
                    proof {
                        lemma_kw_t(lex);
                        assert(lex.subrange(2, lex.len() as int) =~= self.source@.subrange(
                            self.start + 2,
                            self.current as int,
                        ));
                        assert(seq![116u8, 104, 105, 115].subrange(2, 4) =~= seq![105u8, 115]);
                        if self.current - self.start == 2 + rest@.len() && self.source@.subrange(
                            self.start + 2,
                            self.current as int,
                        ) == rest@ {
                            assert(lex =~= seq![116u8, 104, 105, 115]);
                        } else {
                            assert(lex != seq![116u8, 104, 105, 115]);
                        }
                    }
                    r
                } else if c1 == 114 {
                    let rest: Vec<u8> = vec![117u8, 101];
                    let r = self.check_keyword(2, &rest, TokenType::True);
                    proof {
                        lemma_kw_t(lex);
                        assert(lex.subrange(2, lex.len() as int) =~= self.source@.subrange(
                            self.start + 2,
                            self.current as int,
                        ));
                        assert(seq![116u8, 114, 117, 101].subrange(2, 4) =~= seq![117u8, 101]);
                        if self.current - self.start == 2 + rest@.len() && self.source@.subrange(
                            self.start + 2,
                            self.current as int,
                        ) == rest@ {
                            assert(lex =~= seq![116u8, 114, 117, 101]);
                        } else {
                            assert(lex != seq![116u8, 114, 117, 101]);
                        }
                    }
                    r
                } else {
                    proof {
                        lemma_kw_t(lex);
                        lemma_kw_first_bytes();
                    }
                    TokenType::Identifier
                }
            } else {
                proof {
                    lemma_kw_t(lex);
                }
                TokenType::Identifier
            }
        } else if c0 == 118 {  // var
            let rest: Vec<u8> = vec![97u8, 114];
            let r = self.check_keyword(1, &rest, TokenType::Var);
            proof {
                lemma_kw_v(lex);
                assert(lex.subrange(1, lex.len() as int) =~= self.source@.subrange(
                    self.start + 1,
                    self.current as int,
                ));
                assert(seq![118u8, 97, 114].subrange(1, 3) =~= seq![97u8, 114]);
                if self.current - self.start == 1 + rest@.len() && self.source@.subrange(
                    self.start + 1,
                    self.current as int,
                ) == rest@ {
                    assert(lex =~= seq![118u8, 97, 114]);
                } else {
                    assert(lex != seq![118u8, 97, 114]);
                }
            }
            r
        } else if c0 == 119 {  // while
            let rest: Vec<u8> = vec![104u8, 105, 108, 101];
            let r = self.check_keyword(1, &rest, TokenType::While);
            proof {
                lemma_kw_w(lex);
                assert(lex.subrange(1, lex.len() as int) =~= self.source@.subrange(
                    self.start + 1,
                    self.current as int,
                ));
                assert(seq![119u8, 104, 105, 108, 101].subrange(1, 5) =~= seq![104u8, 105, 108, 101]);
                if self.current - self.start == 1 + rest@.len() && self.source@.subrange(
                    self.start + 1,
                    self.current as int,
                ) == rest@ {
                    assert(lex =~= seq![119u8, 104, 105, 108, 101]);
                } else {
                    assert(lex != seq![119u8, 104, 105, 108, 101]);
                }
            }
            r
        } else {
            proof {
                lemma_kw_other(lex);
            }
            TokenType::Identifier
        }
    }

    /// Scans an identifier or keyword; the first letter has been consumed.
    fn identifier(&mut self) -> (t: Token)
        requires
            old(self).wf(),
            old(self).line_synced(),
            old(self).current == old(self).start + 1,
            is_alpha(old(self).source@[old(self).start as int]),
        ensures
            final(self).wf(),
            final(self).line_synced(),
            final(self).source@ == old(self).source@,
            final(self).start == old(self).start,
            final(self).line == old(self).line,
            final(self).current >= old(self).current,
            t.start == final(self).start,
            t.end == final(self).current,
            t.line == final(self).line,
            t.start < t.end <= final(self).source@.len(),
            t.token_type != TokenType::Eof,
            t.token_type == TokenType::Identifier || is_keyword_tt(t.token_type),
            token_lexeme_ok(
                t.token_type,
                final(self).source@.subrange(t.start as int, t.end as int),
            ),
            t.end == final(self).source@.len() || !is_alnum(
                final(self).source@[t.end as int],
            ),
    {
        while self.peek_is_alnum()
            invariant
                self.wf(),
                self.line_synced(),
                self.source@ == old(self).source@,
                self.start == old(self).start,
                self.line == old(self).line,
                self.current > self.start,
                is_ident_lexeme(self.source@.subrange(self.start as int, self.current as int)),
            decreases self.source@.len() - self.current,
        {
            proof {
                let pre = self.source@.subrange(self.start as int, self.current as int);
                let post = self.source@.subrange(self.start as int, self.current + 1);
                assert(post =~= pre.push(self.source@[self.current as int]));
                assert(post[0] == pre[0]);
            }
            self.advance();
            proof {
                lemma_newline_snoc(self.source@, self.current - 1);
            }
        }
        let it = self.identifier_type();
        proof {
            let lex = self.source@.subrange(self.start as int, self.current as int);
            lemma_keyword_type_cases(lex);
        }
        self.make_token(it)
    }

    /// Produces the next token: skips whitespace and comments, then
    /// classifies one lexeme, or reports the position's defect.
    pub fn scan_token(&mut self) -> (r: Result<Token, ScanError>)
        requires
            old(self).wf(),
            old(self).line_synced(),
        ensures
            final(self).wf(),
            final(self).line_synced(),
            final(self).source@ == old(self).source@,
            final(self).current >= old(self).current,
            ({
                let s = skip_spec(
                    old(self).source@,
                    old(self).current as int,
                    old(self).line as int,
                );
                match r {
                    Ok(t) => s.terminated && t.start == s.pos,
                    Err(e) => if e == ScanError::UnterminatedComment {
                        !s.terminated && final(self).current == s.pos
                    } else {
                        s.terminated && final(self).start == s.pos
                    },
                }
            }),
            match r {
                Ok(t) => {
                    &&& t.start == final(self).start
                    &&& t.end == final(self).current
                    &&& t.line == final(self).line
                    &&& t.line == 1 + newline_count(final(self).source@.subrange(0, t.end as int))
                    &&& old(self).current <= t.start <= t.end <= final(self).source@.len()
                    &&& (t.token_type == TokenType::Eof <==> t.start == final(self).source@.len())
                    &&& (t.token_type != TokenType::Eof ==> t.start < t.end)
                    &&& token_lexeme_ok(
                        t.token_type,
                        final(self).source@.subrange(t.start as int, t.end as int),
                    )
                    &&& token_maximal(t.token_type, final(self).source@, t.start as int, t.end as int)
                    &&& (t.start == final(self).source@.len() || !skippable_at(
                        final(self).source@,
                        t.start as int,
                    ))
                },
                Err(e) => {
                    &&& final(self).current > old(self).current
                    &&& (e == ScanError::UnexpectedCharacter ==> final(self).start < final(self).source@.len() && !token_start_byte(
                        final(self).source@[final(self).start as int],
                    ))
                    &&& (e == ScanError::UnterminatedString ==> final(self).source@[final(self).start as int] == 34 && final(self).current == final(self).source@.len()
                        && (forall|i: int|
                        final(self).start < i < final(self).source@.len() ==> final(self).source@[i] != 34))
                    &&& (e == ScanError::UnterminatedComment ==> final(self).current == final(self).source@.len())
                },
            },
    {
        let ws = self.skip_whitespace();
        if let Err(e) = ws {
            return Err(e);
        }
        self.start = self.current;
        if self.is_at_end() {
            let t = self.make_token(TokenType::Eof);
            proof {
                assert(self.source@.subrange(t.start as int, t.end as int).len() == 0);
            }
            Ok(t)
        } else {
            let ghost st = self.current as int;
            let c = self.advance();
            proof {
                lemma_newline_snoc(self.source@, st);
            }
            if c == 40 {
                let t = self.make_token(TokenType::LeftParen);
                proof {
                    lemma_single(self.source@, st, 40);
                }
                Ok(t)
            } else if c == 41 {
                let t = self.make_token(TokenType::RightParen);
                proof {
                    lemma_single(self.source@, st, 41);
                }
                Ok(t)
            } else if c == 123 {
                let t = self.make_token(TokenType::LeftBrace);
                proof {
                    lemma_single(self.source@, st, 123);
                }
                Ok(t)
            } else if c == 125 {
                let t = self.make_token(TokenType::RightBrace);
                proof {
                    lemma_single(self.source@, st, 125);
                }
                Ok(t)
            } else if c == 59 {
                let t = self.make_token(TokenType::Semicolon);
                proof {
                    lemma_single(self.source@, st, 59);
                }
                Ok(t)
            } else if c == 44 {
                let t = self.make_token(TokenType::Comma);
                proof {
                    lemma_single(self.source@, st, 44);
                }
                Ok(t)
            } else if c == 46 {
                let t = self.make_token(TokenType::Dot);
                proof {
                    lemma_single(self.source@, st, 46);
                }
                Ok(t)
            } else if c == 45 {
                let token = self.get_token_type(61, TokenType::MinusEqual, TokenType::Minus);
                let t = self.make_token(token);
                proof {
                    lemma_pair(self.source@, st, self.current as int, 45);
                    if self.current == st + 2 {
                        lemma_newline_snoc(self.source@, st + 1);
                    }
                }
                Ok(t)
            } else if c == 43 {
                let token = self.get_token_type(61, TokenType::PlusEqual, TokenType::Plus);
                let t = self.make_token(token);
                proof {
                    lemma_pair(self.source@, st, self.current as int, 43);
                    if self.current == st + 2 {
                        lemma_newline_snoc(self.source@, st + 1);
                    }
                }
                Ok(t)
            } else if c == 47 {
                let token = self.get_token_type(61, TokenType::SlashEqual, TokenType::Slash);
                let t = self.make_token(token);
                proof {
                    lemma_pair(self.source@, st, self.current as int, 47);
                    if self.current == st + 2 {
                        lemma_newline_snoc(self.source@, st + 1);
                    }
                }
                Ok(t)
            } else if c == 42 {
                let token = self.get_token_type(61, TokenType::StarEqual, TokenType::Star);
                let t = self.make_token(token);
                proof {
                    lemma_pair(self.source@, st, self.current as int, 42);
                    if self.current == st + 2 {
                        lemma_newline_snoc(self.source@, st + 1);
                    }
                }
                Ok(t)
            } else if c == 33 {
                let token = self.get_token_type(61, TokenType::BangEqual, TokenType::Bang);
                let t = self.make_token(token);
                proof {
                    lemma_pair(self.source@, st, self.current as int, 33);
                    if self.current == st + 2 {
                        lemma_newline_snoc(self.source@, st + 1);
                    }
                }
                Ok(t)
            } else if c == 61 {
                let token = self.get_token_type(61, TokenType::EqualEqual, TokenType::Equal);
                let t = self.make_token(token);
                proof {
                    lemma_pair(self.source@, st, self.current as int, 61);
                    if self.current == st + 2 {
                        lemma_newline_snoc(self.source@, st + 1);
                    }
                }
                Ok(t)
            } else if c == 60 {
                let token = self.get_token_type(61, TokenType::LessEqual, TokenType::Less);
                let t = self.make_token(token);
                proof {
                    lemma_pair(self.source@, st, self.current as int, 60);
                    if self.current == st + 2 {
                        lemma_newline_snoc(self.source@, st + 1);
                    }
                }
                Ok(t)
            } else if c == 62 {
                let token = self.get_token_type(61, TokenType::GreaterEqual, TokenType::Greater);
                let t = self.make_token(token);
                proof {
                    lemma_pair(self.source@, st, self.current as int, 62);
                    if self.current == st + 2 {
                        lemma_newline_snoc(self.source@, st + 1);
                    }
                }
                Ok(t)
            } else if c == 63 {
                let t = self.make_token(TokenType::Question);
                proof {
                    lemma_single(self.source@, st, 63);
                }
                Ok(t)
            } else if c == 58 {
                let t = self.make_token(TokenType::Colon);
                proof {
                    lemma_single(self.source@, st, 58);
                }
                Ok(t)
            } else if c == 34 {
                self.string()
            } else if digit(c) {
                Ok(self.number())
            } else if alpha(c) {
                Ok(self.identifier())
            } else {
                Err(ScanError::UnexpectedCharacter)
            }
        }
    }
}

/// The lexeme `src[st..st+1]` is exactly the one byte found there.
proof fn lemma_single(src: Seq<u8>, st: int, b: u8)
    requires
        0 <= st,
        st + 1 <= src.len(),
        src[st] == b,
    ensures
        src.subrange(st, st + 1) == seq![b],
{
    assert(src.subrange(st, st + 1) =~= seq![b]);
}

/// The lexeme `src[st..end]` of a one-or-two-byte operator: the first byte,
/// optionally followed by an equals sign.
proof fn lemma_pair(src: Seq<u8>, st: int, end: int, b: u8)
    requires
        0 <= st,
        st + 1 <= end <= src.len(),
        end <= st + 2,
        src[st] == b,
        end == st + 2 ==> src[st + 1] == 61,
    ensures
        end == st + 1 ==> src.subrange(st, end) == seq![b],
        end == st + 2 ==> src.subrange(st, end) == seq![b, 61],
{
    if end == st + 1 {
        assert(src.subrange(st, end) =~= seq![b]);
    } else {
        assert(src.subrange(st, end) =~= seq![b, 61u8]);
    }
}

/// Ground facts about the keyword spellings: their leading bytes, to tell
/// the sixteen reserved words apart by prefix.
proof fn lemma_kw_first_bytes()
    ensures
        (seq![97u8, 110, 100])[0] == 97,
        (seq![99u8, 108, 97, 115, 115])[0] == 99,
        (seq![101u8, 108, 115, 101])[0] == 101,
        (seq![102u8, 97, 108, 115, 101])[0] == 102,
        (seq![102u8, 97, 108, 115, 101])[1] == 97,
        (seq![102u8, 111, 114])[0] == 102,
        (seq![102u8, 111, 114])[1] == 111,
        (seq![102u8, 117, 110])[0] == 102,
        (seq![102u8, 117, 110])[1] == 117,
        (seq![105u8, 102])[0] == 105,
        (seq![110u8, 105, 108])[0] == 110,
        (seq![111u8, 114])[0] == 111,
        (seq![112u8, 114, 105, 110, 116])[0] == 112,
        (seq![114u8, 101, 116, 117, 114, 110])[0] == 114,
        (seq![115u8, 117, 112, 101, 114])[0] == 115,
        (seq![116u8, 104, 105, 115])[0] == 116,
        (seq![116u8, 104, 105, 115])[1] == 104,
        (seq![116u8, 114, 117, 101])[0] == 116,
        (seq![116u8, 114, 117, 101])[1] == 114,
        (seq![118u8, 97, 114])[0] == 118,
        (seq![119u8, 104, 105, 108, 101])[0] == 119,
{
}

/// Resolution of the keyword table for a lexeme starting with `a`.
proof fn lemma_kw_a(lex: Seq<u8>)
    requires
        lex.len() > 0,
        lex[0] == 97,
    ensures
        lex == seq![97u8, 110, 100] ==> keyword_type(lex) == TokenType::And,
        (lex != seq![97u8, 110, 100]) ==> keyword_type(lex) == TokenType::Identifier,
{
    lemma_kw_first_bytes();
}

/// Resolution of the keyword table for a lexeme starting with `c`.
proof fn lemma_kw_c(lex: Seq<u8>)
    requires
        lex.len() > 0,
        lex[0] == 99,
    ensures
        lex == seq![99u8, 108, 97, 115, 115] ==> keyword_type(lex) == TokenType::Class,
        (lex != seq![99u8, 108, 97, 115, 115]) ==> keyword_type(lex) == TokenType::Identifier,
{
    lemma_kw_first_bytes();
}

/// Resolution of the keyword table for a lexeme starting with `e`.
proof fn lemma_kw_e(lex: Seq<u8>)
    requires
        lex.len() > 0,
        lex[0] == 101,
    ensures
        lex == seq![101u8, 108, 115, 101] ==> keyword_type(lex) == TokenType::Else,
        (lex != seq![101u8, 108, 115, 101]) ==> keyword_type(lex) == TokenType::Identifier,
{
    lemma_kw_first_bytes();
}

/// Resolution of the keyword table for a lexeme starting with `f`.
proof fn lemma_kw_f(lex: Seq<u8>)
    requires
        lex.len() > 0,
        lex[0] == 102,
    ensures
        lex == seq![102u8, 97, 108, 115, 101] ==> keyword_type(lex) == TokenType::False,
        lex == seq![102u8, 111, 114] ==> keyword_type(lex) == TokenType::For,
        lex == seq![102u8, 117, 110] ==> keyword_type(lex) == TokenType::Fun,
        (lex != seq![102u8, 97, 108, 115, 101] && lex != seq![102u8, 111, 114] && lex != seq![102u8, 117, 110]) ==> keyword_type(lex) == TokenType::Identifier,
{
    lemma_kw_first_bytes();
}

/// Resolution of the keyword table for a lexeme starting with `i`.
proof fn lemma_kw_i(lex: Seq<u8>)
    requires
        lex.len() > 0,
        lex[0] == 105,
    ensures
        lex == seq![105u8, 102] ==> keyword_type(lex) == TokenType::If,
        (lex != seq![105u8, 102]) ==> keyword_type(lex) == TokenType::Identifier,
{
    lemma_kw_first_bytes();
}

/// Resolution of the keyword table for a lexeme starting with `n`.
proof fn lemma_kw_n(lex: Seq<u8>)
    requires
        lex.len() > 0,
        lex[0] == 110,
    ensures
        lex == seq![110u8, 105, 108] ==> keyword_type(lex) == TokenType::Nil,
        (lex != seq![110u8, 105, 108]) ==> keyword_type(lex) == TokenType::Identifier,
{
    lemma_kw_first_bytes();
}

/// Resolution of the keyword table for a lexeme starting with `o`.
proof fn lemma_kw_o(lex: Seq<u8>)
    requires
        lex.len() > 0,
        lex[0] == 111,
    ensures
        lex == seq![111u8, 114] ==> keyword_type(lex) == TokenType::Or,
        (lex != seq![111u8, 114]) ==> keyword_type(lex) == TokenType::Identifier,
{
    lemma_kw_first_bytes();
}

/// Resolution of the keyword table for a lexeme starting with `p`.
proof fn lemma_kw_p(lex: Seq<u8>)
    requires
        lex.len() > 0,
        lex[0] == 112,
    ensures
        lex == seq![112u8, 114, 105, 110, 116] ==> keyword_type(lex) == TokenType::Print,
        (lex != seq![112u8, 114, 105, 110, 116]) ==> keyword_type(lex) == TokenType::Identifier,
{
    lemma_kw_first_bytes();
}

/// Resolution of the keyword table for a lexeme starting with `r`.
proof fn lemma_kw_r(lex: Seq<u8>)
    requires
        lex.len() > 0,
        lex[0] == 114,
    ensures
        lex == seq![114u8, 101, 116, 117, 114, 110] ==> keyword_type(lex) == TokenType::Return,
        (lex != seq![114u8, 101, 116, 117, 114, 110]) ==> keyword_type(lex) == TokenType::Identifier,
{
    lemma_kw_first_bytes();
}

/// Resolution of the keyword table for a lexeme starting with `s`.
proof fn lemma_kw_s(lex: Seq<u8>)
    requires
        lex.len() > 0,
        lex[0] == 115,
    ensures
        lex == seq![115u8, 117, 112, 101, 114] ==> keyword_type(lex) == TokenType::Super,
        (lex != seq![115u8, 117, 112, 101, 114]) ==> keyword_type(lex) == TokenType::Identifier,
{
    lemma_kw_first_bytes();
}

/// Resolution of the keyword table for a lexeme starting with `t`.
proof fn lemma_kw_t(lex: Seq<u8>)
    requires
        lex.len() > 0,
        lex[0] == 116,
    ensures
        lex == seq![116u8, 104, 105, 115] ==> keyword_type(lex) == TokenType::This,
        lex == seq![116u8, 114, 117, 101] ==> keyword_type(lex) == TokenType::True,
        (lex != seq![116u8, 104, 105, 115] && lex != seq![116u8, 114, 117, 101]) ==> keyword_type(lex) == TokenType::Identifier,
{
    lemma_kw_first_bytes();
}

/// Resolution of the keyword table for a lexeme starting with `v`.
proof fn lemma_kw_v(lex: Seq<u8>)
    requires
        lex.len() > 0,
        lex[0] == 118,
    ensures
        lex == seq![118u8, 97, 114] ==> keyword_type(lex) == TokenType::Var,
        (lex != seq![118u8, 97, 114]) ==> keyword_type(lex) == TokenType::Identifier,
{
    lemma_kw_first_bytes();
}

/// Resolution of the keyword table for a lexeme starting with `w`.
proof fn lemma_kw_w(lex: Seq<u8>)
    requires
        lex.len() > 0,
        lex[0] == 119,
    ensures
        lex == seq![119u8, 104, 105, 108, 101] ==> keyword_type(lex) == TokenType::While,
        (lex != seq![119u8, 104, 105, 108, 101]) ==> keyword_type(lex) == TokenType::Identifier,
{
    lemma_kw_first_bytes();
}

/// A lexeme whose first byte starts no keyword resolves to `Identifier`.
proof fn lemma_kw_other(lex: Seq<u8>)
    requires
        lex.len() > 0,
        lex[0] != 97 && lex[0] != 99 && lex[0] != 101 && lex[0] != 102 && lex[0] != 105 && lex[0] != 110 && lex[0] != 111 && lex[0] != 112 && lex[0] != 114 && lex[0] != 115 && lex[0] != 116 && lex[0] != 118 && lex[0] != 119,
    ensures
        keyword_type(lex) == TokenType::Identifier,
{
    lemma_kw_first_bytes();
}

/// The keyword table only ever answers a keyword or `Identifier`, never a
/// punctuation, literal, or end-of-file type.
proof fn lemma_keyword_type_cases(lex: Seq<u8>)
    ensures
        keyword_type(lex) == TokenType::Identifier || is_keyword_tt(keyword_type(lex)),
        keyword_type(lex) != TokenType::Eof,
{
}

} // verus!
