//! The parser substrate: a one-token lookahead over the scanner, error
//! reporting with panic-mode suppression, and the precedence ladder.

use vstd::prelude::*;
use crate::common::TokenType;
use crate::scanner::{skip_spec, ScanError, Scanner, Token, token_lexeme_ok};

verus! {

/// The totally ordered precedence ladder. Stored values are consecutive, so
/// one step up is always meaningful below `PrecPrimary`.
#[derive(Copy, Clone, Debug, PartialEq, Eq, Structural)]
pub enum Precedence {
    PrecNone,
    PrecAssignment,
    PrecTernary,
    PrecOr,
    PrecAnd,
    PrecEquality,
    PrecComparison,
    PrecTerm,
    PrecFactor,
    PrecUnary,
    PrecCall,
    PrecPrimary,
}

/// The numeric height of a rung of the precedence ladder.
pub open spec fn prec_val(p: Precedence) -> int {
    match p {
        Precedence::PrecNone => 0,
        Precedence::PrecAssignment => 1,
        Precedence::PrecTernary => 2,
        Precedence::PrecOr => 3,
        Precedence::PrecAnd => 4,
        Precedence::PrecEquality => 5,
        Precedence::PrecComparison => 6,
        Precedence::PrecTerm => 7,
        Precedence::PrecFactor => 8,
        Precedence::PrecUnary => 9,
        Precedence::PrecCall => 10,
        Precedence::PrecPrimary => 11,
    }
}

impl Precedence {
    /// The numeric height of this rung.
    pub fn value(self) -> (r: u8)
        ensures
            r == prec_val(self),
    {
        match self {
            Precedence::PrecNone => 0,
            Precedence::PrecAssignment => 1,
            Precedence::PrecTernary => 2,
            Precedence::PrecOr => 3,
            Precedence::PrecAnd => 4,
            Precedence::PrecEquality => 5,
            Precedence::PrecComparison => 6,
            Precedence::PrecTerm => 7,
            Precedence::PrecFactor => 8,
            Precedence::PrecUnary => 9,
            Precedence::PrecCall => 10,
            Precedence::PrecPrimary => 11,
        }
    }

    /// The next rung up: the binding level of a left-associative operator's
    /// right operand.
    pub fn one_higher(self) -> (r: Precedence)
        requires
            prec_val(self) < 11,
        ensures
            prec_val(r) == prec_val(self) + 1,
    {
        match self {
            Precedence::PrecNone => Precedence::PrecAssignment,
            Precedence::PrecAssignment => Precedence::PrecTernary,
            Precedence::PrecTernary => Precedence::PrecOr,
            Precedence::PrecOr => Precedence::PrecAnd,
            Precedence::PrecAnd => Precedence::PrecEquality,
            Precedence::PrecEquality => Precedence::PrecComparison,
            Precedence::PrecComparison => Precedence::PrecTerm,
            Precedence::PrecTerm => Precedence::PrecFactor,
            Precedence::PrecFactor => Precedence::PrecUnary,
            Precedence::PrecUnary => Precedence::PrecCall,
            Precedence::PrecCall => Precedence::PrecPrimary,
            Precedence::PrecPrimary => Precedence::PrecPrimary,
        }
    }
}

/// A compile-time diagnostic: the line, whether it points at the end of the
/// input, the offending lexeme's byte range, and the message.
#[derive(Debug)]
pub struct Diagnostic {
    pub line: usize,
    pub at_end: bool,
    pub start: usize,
    pub end: usize,
    pub message: &'static str,
}

/// A token agrees with the source it was scanned from: its range is in
/// bounds, only the end-of-input token is empty, and its lexeme has the
/// shape its type demands.
pub open spec fn token_wf(t: Token, src: Seq<u8>) -> bool {
    &&& t.start <= t.end <= src.len()
    &&& (t.token_type == TokenType::Eof <==> t.start == src.len())
    &&& (t.token_type != TokenType::Eof ==> t.start < t.end)
    &&& token_lexeme_ok(t.token_type, src.subrange(t.start as int, t.end as int))
}

/// 1 while the lookahead can still supply input, 0 once it is at the end;
/// the second component of the compiler's termination measure.
pub open spec fn eof_rank(c: Option<Token>) -> int {
    match c {
        Some(t) => if t.token_type == TokenType::Eof {
            0
        } else {
            1
        },
        None => 0,
    }
}

/// The parser: current and previous token, error state, and the scanner
/// the tokens come from.
pub struct Parser {
    pub current: Option<Token>,
    pub prev: Option<Token>,
    pub had_error: bool,
    pub panic_mode: bool,
    pub scanner: Scanner,
    pub diagnostics: Vec<Diagnostic>,
}

impl Parser {
    /// The parser's invariant: a sound scanner, tokens that agree with the
    /// source (the lookahead ends at the cursor), and error flags that
    /// mirror the recorded diagnostics.
    pub open spec fn wf(&self) -> bool {
        &&& self.scanner.wf()
        &&& self.scanner.line_synced()
        &&& match self.current {
            Some(t) => token_wf(t, self.scanner.source@) && t.end == self.scanner.current,
            None => true,
        }
        &&& match self.prev {
            Some(t) => token_wf(t, self.scanner.source@),
            None => true,
        }
        &&& (self.panic_mode <==> self.had_error)
        &&& (self.had_error <==> self.diagnostics@.len() > 0)
    }

    /// A parser over the given source, with no token read yet.
    pub fn new(source: Vec<u8>) -> (r: Parser)
        requires
            source@.len() < usize::MAX,
        ensures
            r.wf(),
            r.current is None,
            r.prev is None,
            !r.had_error,
            !r.panic_mode,
            r.scanner.source@ == source@,
            r.scanner.current == 0,
            r.diagnostics@.len() == 0,
    {
        Parser {
            current: None,
            prev: None,
            had_error: false,
            panic_mode: false,
            scanner: Scanner::new(source),
            diagnostics: Vec::new(),
        }
    }

    /// Records a diagnostic for a token unless panic mode suppresses it;
    /// either way the parse is marked failed and panic mode is entered.
    fn error_at(&mut self, t: Token, msg: &'static str)
        requires
            old(self).wf(),
        ensures
            final(self).wf(),
            final(self).scanner == old(self).scanner,
            final(self).current == old(self).current,
            final(self).prev == old(self).prev,
            final(self).had_error,
            final(self).panic_mode,
            old(self).panic_mode ==> final(self).diagnostics@ == old(self).diagnostics@,
            !old(self).panic_mode ==> final(self).diagnostics@ == old(self).diagnostics@.push(
                Diagnostic {
                    line: t.line,
                    at_end: t.token_type == TokenType::Eof,
                    start: t.start,
                    end: t.end,
                    message: msg,
                },
            ),
    {
        if self.panic_mode {
            return ;
        }
        self.panic_mode = true;
        self.diagnostics.push(
            Diagnostic { line: t.line, at_end: t.token_type == TokenType::Eof, start: t.start, end: t.end, message: msg },
        );
        self.had_error = true;
    }

    /// Reports an error at the lookahead token.
    pub fn error_at_current(&mut self, msg: &'static str)
        requires
            old(self).wf(),
            old(self).current is Some,
        ensures
            final(self).wf(),
            final(self).scanner == old(self).scanner,
            final(self).current == old(self).current,
            final(self).prev == old(self).prev,
            final(self).had_error,
            final(self).panic_mode,
            old(self).panic_mode ==> final(self).diagnostics@ == old(self).diagnostics@,
            !old(self).panic_mode ==> final(self).diagnostics@ == old(self).diagnostics@.push(
                Diagnostic {
                    line: old(self).current.unwrap().line,
                    at_end: old(self).current.unwrap().token_type == TokenType::Eof,
                    start: old(self).current.unwrap().start,
                    end: old(self).current.unwrap().end,
                    message: msg,
                },
            ),
    {
        let t = self.current.unwrap();
        self.error_at(t, msg);
    }

    /// Reports an error at the token just consumed.
    pub fn error(&mut self, msg: &'static str)
        requires
            old(self).wf(),
            old(self).prev is Some,
        ensures
            final(self).wf(),
            final(self).scanner == old(self).scanner,
            final(self).current == old(self).current,
            final(self).prev == old(self).prev,
            final(self).had_error,
            final(self).panic_mode,
            old(self).panic_mode ==> final(self).diagnostics@ == old(self).diagnostics@,
            !old(self).panic_mode ==> final(self).diagnostics@ == old(self).diagnostics@.push(
                Diagnostic {
                    line: old(self).prev.unwrap().line,
                    at_end: old(self).prev.unwrap().token_type == TokenType::Eof,
                    start: old(self).prev.unwrap().start,
                    end: old(self).prev.unwrap().end,
                    message: msg,
                },
            ),
    {
        let t = self.prev.unwrap();
        self.error_at(t, msg);
    }

    /// Records a scanner defect at the scanner's position, suppressed under
    /// panic mode; the parse is marked failed regardless.
    fn scan_error(&mut self, e: ScanError)
        requires
            old(self).wf(),
        ensures
            final(self).wf(),
            final(self).scanner == old(self).scanner,
            final(self).current == old(self).current,
            final(self).prev == old(self).prev,
            final(self).had_error,
            final(self).panic_mode,
            old(self).panic_mode ==> final(self).diagnostics@ == old(self).diagnostics@,
            !old(self).panic_mode ==> final(self).diagnostics@.len() == old(
                self,
            ).diagnostics@.len() + 1,
    {
        if !self.panic_mode {
            self.panic_mode = true;
            self.diagnostics.push(
                Diagnostic {
                    line: self.scanner.line,
                    at_end: self.scanner.is_at_end(),
                    start: self.scanner.start,
                    end: self.scanner.current,
                    message: e.message(),
                },
            );
        }
        self.had_error = true;
    }

    /// Saves the lookahead as `prev` and pulls the next token, reporting
    /// scanner defects at the offending position and pulling again until a
    /// token is produced.
    pub fn advance(&mut self)
        requires
            old(self).wf(),
        ensures
            final(self).wf(),
            final(self).scanner.source@ == old(self).scanner.source@,
            final(self).prev == old(self).current,
            final(self).current is Some,
            final(self).scanner.current >= old(self).scanner.current,
            final(self).current matches Some(t) ==> t.start >= old(self).scanner.current,
            old(self).had_error ==> final(self).had_error,
            final(self).diagnostics@.len() >= old(self).diagnostics@.len(),
            final(self).diagnostics@.len() <= old(self).diagnostics@.len() + 1,
            final(self).had_error == old(self).had_error ==> final(self).diagnostics@ == old(
                self,
            ).diagnostics@,
            !old(self).had_error && final(self).had_error ==> final(self).diagnostics@.len() == old(
                self,
            ).diagnostics@.len() + 1,
            (!old(self).panic_mode && final(self).diagnostics@ == old(self).diagnostics@) ==> (
            match final(self).current {
                Some(t) => t.start == skip_spec(
                    old(self).scanner.source@,
                    old(self).scanner.current as int,
                    old(self).scanner.line as int,
                ).pos,
                None => false,
            }),
    {
        self.prev = self.current;
        self.current = None;
        loop
            invariant
                self.wf(),
                self.scanner.source@ == old(self).scanner.source@,
                self.prev == old(self).current,
                self.current is None,
                self.scanner.current >= old(self).scanner.current,
                old(self).had_error ==> self.had_error,
                self.diagnostics@.len() >= old(self).diagnostics@.len(),
                self.diagnostics@.len() <= old(self).diagnostics@.len() + 1,
                self.had_error == old(self).had_error ==> self.diagnostics@ == old(
                    self,
                ).diagnostics@,
                !old(self).had_error && self.had_error ==> self.diagnostics@.len() == old(
                    self,
                ).diagnostics@.len() + 1,
                old(self).panic_mode <==> old(self).had_error,
                old(self).had_error <==> old(self).diagnostics@.len() > 0,
                (!old(self).panic_mode && self.diagnostics@ == old(self).diagnostics@) ==> self.scanner
                    == old(self).scanner,
            decreases self.scanner.source@.len() - self.scanner.current,
        {
            let ghost pre = self.scanner.current;
            let token = self.scanner.scan_token();
            match token {
                Ok(t) => {
                    self.current = Some(t);
                    return ;
                }
                Err(e) => {
                    self.scan_error(e);
                }
            }
        }
    }

    /// Consumes the lookahead when it has the expected type; otherwise
    /// reports `msg` at the lookahead.
    pub fn consume(&mut self, token_type: TokenType, msg: &'static str)
        requires
            old(self).wf(),
            old(self).current is Some,
        ensures
            final(self).wf(),
            final(self).scanner.source@ == old(self).scanner.source@,
            final(self).current is Some,
            final(self).scanner.current >= old(self).scanner.current,
            old(self).had_error ==> final(self).had_error,
            final(self).diagnostics@.len() >= old(self).diagnostics@.len(),
            final(self).current == old(self).current || (match final(self).current {
                Some(t) => t.start >= old(self).scanner.current,
                None => false,
            }),
            (match old(self).current {
                Some(t) => t.token_type == token_type,
                None => false,
            }) ==> final(self).prev == old(self).current,
            (match old(self).current {
                Some(t) => t.token_type != token_type,
                None => true,
            }) ==> {
                &&& final(self).current == old(self).current
                &&& final(self).prev == old(self).prev
                &&& final(self).scanner == old(self).scanner
                &&& final(self).had_error
                &&& (old(self).panic_mode ==> final(self).diagnostics@ == old(self).diagnostics@)
                &&& (!old(self).panic_mode ==> final(self).diagnostics@ == old(
                    self,
                ).diagnostics@.push(
                    Diagnostic {
                        line: old(self).current.unwrap().line,
                        at_end: old(self).current.unwrap().token_type == TokenType::Eof,
                        start: old(self).current.unwrap().start,
                        end: old(self).current.unwrap().end,
                        message: msg,
                    },
                ))
            },
    {
        let matches_expected = match self.current {
            Some(t) => t.token_type == token_type,
            None => false,
        };
        if matches_expected {
            self.advance();
        } else {
            self.error_at_current(msg);
        }
    }
}

} // verus!
