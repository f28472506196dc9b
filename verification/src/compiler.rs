//! The single-pass Pratt compiler: tokens are pulled on demand and bytecode
//! is emitted immediately into the chunk, with no intermediate tree.
//!
//! Termination of the mutually recursive handlers rests on a lexicographic
//! measure: the unconsumed source shrinks, or the lookahead reaches the end
//! of the input, or control moves down a fixed call ladder.

use vstd::prelude::*;
use crate::chunk::{
    chunk_balanced, exec_ok, lemma_exec_ok_compose, lemma_exec_ok_frame, seg_plus_one, seg_same,
    Chunk,
};
use crate::common::{OpCode, TokenType};
use crate::gc::GC;
use crate::obj::copy_string;
use crate::parser::{eof_rank, prec_val, Parser, Precedence};
use crate::value::{literal_value, parse_literal, value_wf, Value};

verus! {

/// A prefix position handler of the parse-rule table.
#[derive(Copy, Clone, Debug, PartialEq, Eq, Structural)]
pub enum PrefixFn {
    PrefixGrouping,
    PrefixUnary,
    PrefixNumber,
    PrefixLiteral,
    PrefixString,
}

/// An infix position handler of the parse-rule table.
#[derive(Copy, Clone, Debug, PartialEq, Eq, Structural)]
pub enum InfixFn {
    InfixBinary,
}

/// A row of the parse-rule table: what may begin at this token, what may
/// continue at it, and how tightly it binds as an operator.
#[derive(Copy, Clone, Debug)]
pub struct ParseRule {
    pub prefix: Option<PrefixFn>,
    pub infix: Option<InfixFn>,
    pub precedence: Precedence,
}

/// The parse-rule table, indexed by token type. Tokens with no role in the
/// expression grammar have no handlers and no binding power.
pub open spec fn rule_of(tt: TokenType) -> ParseRule {
    match tt {
        TokenType::LeftParen => ParseRule {
            prefix: Some(PrefixFn::PrefixGrouping),
            infix: None,
            precedence: Precedence::PrecNone,
        },
        TokenType::Minus => ParseRule {
            prefix: Some(PrefixFn::PrefixUnary),
            infix: Some(InfixFn::InfixBinary),
            precedence: Precedence::PrecTerm,
        },
        TokenType::Plus => ParseRule {
            prefix: None,
            infix: Some(InfixFn::InfixBinary),
            precedence: Precedence::PrecTerm,
        },
        TokenType::Slash => ParseRule {
            prefix: None,
            infix: Some(InfixFn::InfixBinary),
            precedence: Precedence::PrecFactor,
        },
        TokenType::Star => ParseRule {
            prefix: None,
            infix: Some(InfixFn::InfixBinary),
            precedence: Precedence::PrecFactor,
        },
        TokenType::Bang => ParseRule {
            prefix: Some(PrefixFn::PrefixUnary),
            infix: None,
            precedence: Precedence::PrecNone,
        },
        TokenType::BangEqual => ParseRule {
            prefix: None,
            infix: Some(InfixFn::InfixBinary),
            precedence: Precedence::PrecEquality,
        },
        TokenType::EqualEqual => ParseRule {
            prefix: None,
            infix: Some(InfixFn::InfixBinary),
            precedence: Precedence::PrecEquality,
        },
        TokenType::Greater => ParseRule {
            prefix: None,
            infix: Some(InfixFn::InfixBinary),
            precedence: Precedence::PrecComparison,
        },
        TokenType::GreaterEqual => ParseRule {
            prefix: None,
            infix: Some(InfixFn::InfixBinary),
            precedence: Precedence::PrecComparison,
        },
        TokenType::Less => ParseRule {
            prefix: None,
            infix: Some(InfixFn::InfixBinary),
            precedence: Precedence::PrecComparison,
        },
        TokenType::LessEqual => ParseRule {
            prefix: None,
            infix: Some(InfixFn::InfixBinary),
            precedence: Precedence::PrecComparison,
        },
        TokenType::Number => ParseRule {
            prefix: Some(PrefixFn::PrefixNumber),
            infix: None,
            precedence: Precedence::PrecNone,
        },
        TokenType::StringToken => ParseRule {
            prefix: Some(PrefixFn::PrefixString),
            infix: None,
            precedence: Precedence::PrecNone,
        },
        TokenType::False => ParseRule {
            prefix: Some(PrefixFn::PrefixLiteral),
            infix: None,
            precedence: Precedence::PrecNone,
        },
        TokenType::True => ParseRule {
            prefix: Some(PrefixFn::PrefixLiteral),
            infix: None,
            precedence: Precedence::PrecNone,
        },
        TokenType::Nil => ParseRule {
            prefix: Some(PrefixFn::PrefixLiteral),
            infix: None,
            precedence: Precedence::PrecNone,
        },
        _ => ParseRule { prefix: None, infix: None, precedence: Precedence::PrecNone },
    }
}

/// The parse-rule table row for a token type.
pub fn get_rule(tt: TokenType) -> (r: ParseRule)
    ensures
        r == rule_of(tt),
{
    match tt {
        TokenType::LeftParen => ParseRule {
            prefix: Some(PrefixFn::PrefixGrouping),
            infix: None,
            precedence: Precedence::PrecNone,
        },
        TokenType::Minus => ParseRule {
            prefix: Some(PrefixFn::PrefixUnary),
            infix: Some(InfixFn::InfixBinary),
            precedence: Precedence::PrecTerm,
        },
        TokenType::Plus => ParseRule {
            prefix: None,
            infix: Some(InfixFn::InfixBinary),
            precedence: Precedence::PrecTerm,
        },
        TokenType::Slash => ParseRule {
            prefix: None,
            infix: Some(InfixFn::InfixBinary),
            precedence: Precedence::PrecFactor,
        },
        TokenType::Star => ParseRule {
            prefix: None,
            infix: Some(InfixFn::InfixBinary),
            precedence: Precedence::PrecFactor,
        },
        TokenType::Bang => ParseRule {
            prefix: Some(PrefixFn::PrefixUnary),
            infix: None,
            precedence: Precedence::PrecNone,
        },
        TokenType::BangEqual => ParseRule {
            prefix: None,
            infix: Some(InfixFn::InfixBinary),
            precedence: Precedence::PrecEquality,
        },
        TokenType::EqualEqual => ParseRule {
            prefix: None,
            infix: Some(InfixFn::InfixBinary),
            precedence: Precedence::PrecEquality,
        },
        TokenType::Greater => ParseRule {
            prefix: None,
            infix: Some(InfixFn::InfixBinary),
            precedence: Precedence::PrecComparison,
        },
        TokenType::GreaterEqual => ParseRule {
            prefix: None,
            infix: Some(InfixFn::InfixBinary),
            precedence: Precedence::PrecComparison,
        },
        TokenType::Less => ParseRule {
            prefix: None,
            infix: Some(InfixFn::InfixBinary),
            precedence: Precedence::PrecComparison,
        },
        TokenType::LessEqual => ParseRule {
            prefix: None,
            infix: Some(InfixFn::InfixBinary),
            precedence: Precedence::PrecComparison,
        },
        TokenType::Number => ParseRule {
            prefix: Some(PrefixFn::PrefixNumber),
            infix: None,
            precedence: Precedence::PrecNone,
        },
        TokenType::StringToken => ParseRule {
            prefix: Some(PrefixFn::PrefixString),
            infix: None,
            precedence: Precedence::PrecNone,
        },
        TokenType::False => ParseRule {
            prefix: Some(PrefixFn::PrefixLiteral),
            infix: None,
            precedence: Precedence::PrecNone,
        },
        TokenType::True => ParseRule {
            prefix: Some(PrefixFn::PrefixLiteral),
            infix: None,
            precedence: Precedence::PrecNone,
        },
        TokenType::Nil => ParseRule {
            prefix: Some(PrefixFn::PrefixLiteral),
            infix: None,
            precedence: Precedence::PrecNone,
        },
        _ => ParseRule { prefix: None, infix: None, precedence: Precedence::PrecNone },
    }
}

/// An operator row — one with binding power — always has the binary infix
/// handler, binds between equality and factor strength, and belongs to a
/// real token, never the end of input.
proof fn lemma_operator_rule(tt: TokenType)
    ensures
        prec_val(rule_of(tt).precedence) >= 1 ==> {
            &&& rule_of(tt).infix == Some(InfixFn::InfixBinary)
            &&& 5 <= prec_val(rule_of(tt).precedence) <= 8
            &&& tt != TokenType::Eof
        },
{
}

/// The opcode a literal keyword compiles to.
pub open spec fn literal_opcode(tt: TokenType) -> u8 {
    match tt {
        TokenType::Nil => 2,
        TokenType::True => 3,
        TokenType::False => 4,
        _ => 0,
    }
}

/// The opcode a unary operator compiles to.
pub open spec fn unary_opcode(tt: TokenType) -> u8 {
    match tt {
        TokenType::Minus => 10,
        TokenType::Bang => 15,
        _ => 0,
    }
}

/// The opcode a binary operator compiles to.
pub open spec fn binary_opcode(tt: TokenType) -> u8 {
    match tt {
        TokenType::EqualEqual => 5,
        TokenType::Greater => 6,
        TokenType::Less => 7,
        TokenType::GreaterEqual => 8,
        TokenType::LessEqual => 9,
        TokenType::Plus => 11,
        TokenType::Minus => 12,
        TokenType::Star => 13,
        TokenType::Slash => 14,
        TokenType::BangEqual => 16,
        _ => 0,
    }
}

/// Every constant in the pool refers only to allocated heap objects.
pub open spec fn constants_wf(consts: Seq<Value>, heap_size: nat) -> bool {
    forall|i: int| 0 <= i < consts.len() ==> value_wf(#[trigger] consts[i], heap_size)
}

/// The code only grew: the old bytes stand unchanged at the front.
pub open spec fn code_extends(pre: Seq<u8>, post: Seq<u8>) -> bool {
    &&& pre.len() <= post.len()
    &&& forall|i: int| 0 <= i < pre.len() ==> post[i] == #[trigger] pre[i]
}

/// The Pratt compiler: the parser it drives, the chunk it emits into, and
/// the heap it allocates string constants on.
pub struct Compiler {
    pub parser: Parser,
    pub chunk: Chunk,
    pub gc: GC,
}

impl Compiler {
    /// The compiler's invariant: a sound parser, a sound chunk, and a
    /// constant pool that points only at allocated objects.
    pub open spec fn wf(&self) -> bool {
        &&& self.parser.wf()
        &&& self.chunk.wf()
        &&& constants_wf(self.chunk@.constants, self.gc.strings().len())
        &&& self.chunk@.constants.len() <= 256
    }

    /// The state relation every parsing step obeys: the source is fixed,
    /// the cursor only moves forward, and any new lookahead token lies
    /// beyond the old cursor.
    pub open spec fn stepped(pre: Compiler, post: Compiler) -> bool {
        &&& post.parser.scanner.source@ == pre.parser.scanner.source@
        &&& post.parser.scanner.current >= pre.parser.scanner.current
        &&& (post.parser.current == pre.parser.current || (match post.parser.current {
            Some(t) => t.start >= pre.parser.scanner.current,
            None => false,
        }))
        &&& (pre.parser.had_error ==> post.parser.had_error)
    }

    /// The chunk relation every parsing step obeys: code is append-only
    /// and the constant pool never shrinks.
    pub open spec fn emits(pre: Compiler, post: Compiler) -> bool {
        &&& code_extends(pre.chunk@.code, post.chunk@.code)
        &&& post.chunk@.constants.len() >= pre.chunk@.constants.len()
    }

    /// On a clean parse, the appended code computes exactly one value: from
    /// any stack depth it ends one deeper, never underflowing.
    pub open spec fn compiles_value(pre: Compiler, post: Compiler) -> bool {
        !post.parser.had_error ==> seg_plus_one(
            post.chunk@.code,
            post.chunk@.constants.len() as int,
            pre.chunk@.code.len() as int,
            post.chunk@.code.len() as int,
        )
    }

    /// On a clean parse, the appended code folds an operator over the value
    /// beneath it: from any positive depth it ends at the same depth.
    pub open spec fn compiles_op(pre: Compiler, post: Compiler) -> bool {
        !post.parser.had_error ==> seg_same(
            post.chunk@.code,
            post.chunk@.constants.len() as int,
            pre.chunk@.code.len() as int,
            post.chunk@.code.len() as int,
        )
    }

    /// A fresh compiler over the given source, with an empty chunk and an
    /// empty heap.
    pub fn new(source: Vec<u8>) -> (r: Compiler)
        requires
            source@.len() < usize::MAX,
        ensures
            r.wf(),
            r.parser.scanner.source@ == source@,
            r.chunk@.code.len() == 0,
            r.chunk@.constants.len() == 0,
            r.gc.strings().len() == 0,
            !r.parser.had_error,
    {
        Compiler { parser: Parser::new(source), chunk: Chunk::new(), gc: GC::new() }
    }

    /// Appends one byte of code, attributed to the line of the token just
    /// consumed.
    fn emit_byte(&mut self, byte: u8)
        requires
            old(self).wf(),
            old(self).parser.prev is Some,
        ensures
            final(self).wf(),
            final(self).parser == old(self).parser,
            final(self).gc == old(self).gc,
            final(self).chunk@.code == old(self).chunk@.code.push(byte),
            final(self).chunk@.constants == old(self).chunk@.constants,
    {
        let line = self.parser.prev.unwrap().line;
        self.chunk.write(byte, line);
    }

    /// Appends two bytes of code: an opcode and its operand.
    fn emit_bytes(&mut self, byte1: u8, byte2: u8)
        requires
            old(self).wf(),
            old(self).parser.prev is Some,
        ensures
            final(self).wf(),
            final(self).parser == old(self).parser,
            final(self).gc == old(self).gc,
            final(self).chunk@.code == old(self).chunk@.code.push(byte1).push(byte2),
            final(self).chunk@.constants == old(self).chunk@.constants,
    {
        self.emit_byte(byte1);
        self.emit_byte(byte2);
    }

    /// Adds a value to the constant pool and returns its index; when the
    /// pool is full the overflow is reported as a compile error and index 0
    /// stands in.
    fn make_constant(&mut self, value: Value) -> (r: u8)
        requires
            old(self).wf(),
            old(self).parser.prev is Some,
            value_wf(value, old(self).gc.strings().len()),
        ensures
            final(self).wf(),
            final(self).gc == old(self).gc,
            final(self).chunk@.code == old(self).chunk@.code,
            final(self).parser.scanner == old(self).parser.scanner,
            final(self).parser.current == old(self).parser.current,
            final(self).parser.prev == old(self).parser.prev,
            old(self).parser.had_error ==> final(self).parser.had_error,
            old(self).chunk@.constants.len() < 256 ==> {
                &&& final(self).chunk@.constants == old(self).chunk@.constants.push(value)
                &&& r == old(self).chunk@.constants.len()
                &&& final(self).parser == old(self).parser
            },
            old(self).chunk@.constants.len() >= 256 ==> {
                &&& final(self).chunk@.constants == old(self).chunk@.constants
                &&& final(self).parser.had_error
            },
    {
        if self.chunk.constants_size() >= 256 {
            self.parser.error("Can not have more than 255 constants.");
            return 0;
        }
        self.chunk.add_constant(value)
    }

    /// Emits a constant instruction for a value: the value enters the pool
    /// and `OpConstant` with its index enters the code.
    fn emit_constant(&mut self, value: Value)
        requires
            old(self).wf(),
            old(self).parser.prev is Some,
            value_wf(value, old(self).gc.strings().len()),
        ensures
            final(self).wf(),
            final(self).gc == old(self).gc,
            final(self).parser.scanner == old(self).parser.scanner,
            final(self).parser.current == old(self).parser.current,
            final(self).parser.prev == old(self).parser.prev,
            old(self).parser.had_error ==> final(self).parser.had_error,
            Self::emits(*old(self), *final(self)),
            !final(self).parser.had_error ==> {
                &&& final(self).chunk@.code == old(self).chunk@.code.push(1).push(
                    old(self).chunk@.constants.len() as u8,
                )
                &&& final(self).chunk@.constants == old(self).chunk@.constants.push(value)
                &&& old(self).chunk@.constants.len() < 256
            },
    {
        let ind = self.make_constant(value);
        self.emit_bytes(OpCode::OpConstant.to_byte(), ind);
    }

    /// Whether the lookahead token binds at least as tightly as `prec`.
    fn is_lower_prec(&self, prec: Precedence) -> (r: bool)
        requires
            self.wf(),
            self.parser.current is Some,
        ensures
            r == (prec_val(prec) <= prec_val(
                rule_of(self.parser.current.unwrap().token_type).precedence,
            )),
    {
        let p = get_rule(self.parser.current.unwrap().token_type);
        let p1 = prec.value();
        p1 <= p.precedence.value()
    }

    /// Compiles a parenthesized expression; the `(` has been consumed.
    fn grouping(&mut self)
        requires
            old(self).wf(),
            old(self).parser.current is Some,
            old(self).parser.prev is Some,
        ensures
            final(self).wf(),
            final(self).parser.current is Some,
            final(self).parser.prev is Some,
            Self::stepped(*old(self), *final(self)),
            Self::emits(*old(self), *final(self)),
            Self::compiles_value(*old(self), *final(self)),
        decreases
            old(self).parser.scanner.source@.len() - old(self).parser.scanner.current,
            eof_rank(old(self).parser.current),
            2int,
    {
        self.expression();
        self.parser.consume(TokenType::RightParen, "Expected ) after expression.");
    }

    /// Compiles a unary operation: the operand at unary precedence, then
    /// the operator's opcode.
    fn unary(&mut self)
        requires
            old(self).wf(),
            old(self).parser.current is Some,
            match old(self).parser.prev {
                Some(t) => rule_of(t.token_type).prefix == Some(PrefixFn::PrefixUnary),
                None => false,
            },
        ensures
            final(self).wf(),
            final(self).parser.current is Some,
            final(self).parser.prev is Some,
            Self::stepped(*old(self), *final(self)),
            Self::emits(*old(self), *final(self)),
            Self::compiles_value(*old(self), *final(self)),
            !final(self).parser.had_error ==> {
                &&& final(self).chunk@.code.len() >= old(self).chunk@.code.len() + 2
                &&& final(self).chunk@.code.last() == unary_opcode(
                    old(self).parser.prev.unwrap().token_type,
                )
            },
        decreases
            old(self).parser.scanner.source@.len() - old(self).parser.scanner.current,
            eof_rank(old(self).parser.current),
            1int,
    {
        let operator_type = self.parser.prev.unwrap().token_type;
        self.parse_precedence(Precedence::PrecUnary);
        let ghost mid = *self;
        match operator_type {
            TokenType::Minus => self.emit_byte(OpCode::OpNegate.to_byte()),
            TokenType::Bang => self.emit_byte(OpCode::OpNot.to_byte()),
            _ => {
                proof {
                    assert(false);
                }
            }
        }
        proof {
            lemma_wrap_operator(*old(self), mid, *self);
            if !self.parser.had_error {
                lemma_operand_nonempty(*old(self), mid);
            }
        }
    }

    /// Compiles a binary operation: the right operand one level above the
    /// operator's precedence (left association), then the opcode.
    fn binary(&mut self)
        requires
            old(self).wf(),
            old(self).parser.current is Some,
            match old(self).parser.prev {
                Some(t) => rule_of(t.token_type).infix is Some,
                None => false,
            },
        ensures
            final(self).wf(),
            final(self).parser.current is Some,
            final(self).parser.prev is Some,
            Self::stepped(*old(self), *final(self)),
            Self::emits(*old(self), *final(self)),
            Self::compiles_op(*old(self), *final(self)),
            !final(self).parser.had_error ==> {
                &&& final(self).chunk@.code.len() >= old(self).chunk@.code.len() + 2
                &&& final(self).chunk@.code.last() == binary_opcode(
                    old(self).parser.prev.unwrap().token_type,
                )
            },
        decreases
            old(self).parser.scanner.source@.len() - old(self).parser.scanner.current,
            eof_rank(old(self).parser.current),
            1int,
    {
        let operator_type = self.parser.prev.unwrap().token_type;
        let rule = get_rule(operator_type);
        proof {
            lemma_operator_rule(operator_type);
        }
        let next = rule.precedence.one_higher();
        self.parse_precedence(next);
        let ghost mid = *self;
        match operator_type {
            TokenType::Plus => self.emit_byte(OpCode::OpAdd.to_byte()),
            TokenType::Minus => self.emit_byte(OpCode::OpSubtract.to_byte()),
            TokenType::Star => self.emit_byte(OpCode::OpMultiply.to_byte()),
            TokenType::Slash => self.emit_byte(OpCode::OpDivide.to_byte()),
            TokenType::BangEqual => self.emit_byte(OpCode::OpNotEqual.to_byte()),
            TokenType::EqualEqual => self.emit_byte(OpCode::OpEqual.to_byte()),
            TokenType::Greater => self.emit_byte(OpCode::OpGreater.to_byte()),
            TokenType::GreaterEqual => self.emit_byte(OpCode::OpGreaterEqual.to_byte()),
            TokenType::Less => self.emit_byte(OpCode::OpLess.to_byte()),
            TokenType::LessEqual => self.emit_byte(OpCode::OpLessEqual.to_byte()),
            _ => {
                proof {
                    assert(false);
                }
            }
        }
        proof {
            lemma_fold_operator(*old(self), mid, *self);
            if !self.parser.had_error {
                lemma_operand_nonempty(*old(self), mid);
            }
        }
    }

    /// Compiles a number literal: its value joins the constant pool and a
    /// constant instruction is emitted.
    fn number(&mut self)
        requires
            old(self).wf(),
            match old(self).parser.prev {
                Some(t) => t.token_type == TokenType::Number,
                None => false,
            },
        ensures
            final(self).wf(),
            final(self).parser.scanner == old(self).parser.scanner,
            final(self).parser.current == old(self).parser.current,
            final(self).parser.prev == old(self).parser.prev,
            old(self).parser.had_error ==> final(self).parser.had_error,
            Self::emits(*old(self), *final(self)),
            Self::compiles_value(*old(self), *final(self)),
            !final(self).parser.had_error ==> {
                &&& final(self).chunk@.code == old(self).chunk@.code.push(1).push(
                    old(self).chunk@.constants.len() as u8,
                )
                &&& final(self).chunk@.constants == old(self).chunk@.constants.push(
                    Value::Number(
                        literal_value(
                            old(self).parser.scanner.source@.subrange(
                                old(self).parser.prev.unwrap().start as int,
                                old(self).parser.prev.unwrap().end as int,
                            ),
                        ) as i64,
                    ),
                )
            },
    {
        let t = self.parser.prev.unwrap();
        let v = parse_literal(&self.parser.scanner.source, t.start, t.end);
        self.emit_constant(Value::Number(v));
        proof {
            lemma_constant_segment(*old(self), *self);
        }
    }

    /// Compiles a string literal: the bytes between the quotes become a
    /// fresh heap string and a constant instruction refers to it.
    fn string(&mut self)
        requires
            old(self).wf(),
            match old(self).parser.prev {
                Some(t) => t.token_type == TokenType::StringToken,
                None => false,
            },
        ensures
            final(self).wf(),
            final(self).parser.scanner == old(self).parser.scanner,
            final(self).parser.current == old(self).parser.current,
            final(self).parser.prev == old(self).parser.prev,
            old(self).parser.had_error ==> final(self).parser.had_error,
            Self::emits(*old(self), *final(self)),
            Self::compiles_value(*old(self), *final(self)),
            final(self).gc.strings() == old(self).gc.strings().push(
                old(self).parser.scanner.source@.subrange(
                    old(self).parser.prev.unwrap().start + 1,
                    old(self).parser.prev.unwrap().end - 1,
                ),
            ),
            !final(self).parser.had_error ==> {
                &&& final(self).chunk@.code == old(self).chunk@.code.push(1).push(
                    old(self).chunk@.constants.len() as u8,
                )
                &&& final(self).chunk@.constants == old(self).chunk@.constants.push(
                    Value::Obj(old(self).gc.strings().len() as usize),
                )
            },
    {
        let t = self.parser.prev.unwrap();
        let idx = copy_string(&mut self.gc, &self.parser.scanner.source, t.start + 1, t.end - 1);
        proof {
            assert forall|i: int|
                0 <= i < self.chunk@.constants.len() implies value_wf(
                #[trigger] self.chunk@.constants[i],
                self.gc.strings().len(),
            ) by {}
        }
        self.emit_constant(Value::Obj(idx));
        proof {
            lemma_constant_segment(*old(self), *self);
        }
    }

    /// Compiles `true`, `false` or `nil` into its dedicated opcode.
    fn literal(&mut self)
        requires
            old(self).wf(),
            match old(self).parser.prev {
                Some(t) => rule_of(t.token_type).prefix == Some(PrefixFn::PrefixLiteral),
                None => false,
            },
        ensures
            final(self).wf(),
            final(self).parser == old(self).parser,
            final(self).gc == old(self).gc,
            final(self).chunk@.constants == old(self).chunk@.constants,
            Self::emits(*old(self), *final(self)),
            Self::compiles_value(*old(self), *final(self)),
            final(self).chunk@.code == old(self).chunk@.code.push(
                literal_opcode(old(self).parser.prev.unwrap().token_type),
            ),
    {
        match self.parser.prev.unwrap().token_type {
            TokenType::False => self.emit_byte(OpCode::OpFalse.to_byte()),
            TokenType::True => self.emit_byte(OpCode::OpTrue.to_byte()),
            TokenType::Nil => self.emit_byte(OpCode::OpNil.to_byte()),
            _ => {
                proof {
                    assert(false);
                }
            }
        }
        proof {
            let cc = self.chunk@.code;
            let cl = self.chunk@.constants.len() as int;
            let l0 = old(self).chunk@.code.len() as int;
            assert forall|d: int| d >= 0 implies (#[trigger] exec_ok(cc, cl, l0, l0 + 1, d)) == Some(d + 1) by {
                reveal_with_fuel(exec_ok, 3);
            }
        }
    }

    /// The heart of the Pratt scheme: consume one token, run its prefix
    /// handler, then fold in infix operators while the lookahead binds at
    /// least as tightly as `precedence`.
    #[verifier::loop_isolation(false)]
    fn parse_precedence(&mut self, precedence: Precedence)
        requires
            old(self).wf(),
            old(self).parser.current is Some,
            prec_val(precedence) >= 1,
        ensures
            final(self).wf(),
            final(self).parser.current is Some,
            final(self).parser.prev is Some,
            Self::stepped(*old(self), *final(self)),
            Self::emits(*old(self), *final(self)),
            Self::compiles_value(*old(self), *final(self)),
            rule_of(old(self).parser.current.unwrap().token_type).prefix is None ==> {
                &&& final(self).parser.had_error
                &&& final(self).chunk == old(self).chunk
                &&& final(self).gc == old(self).gc
            },
            !final(self).parser.had_error ==> prec_val(
                rule_of(final(self).parser.current.unwrap().token_type).precedence,
            ) < prec_val(precedence),
        decreases
            old(self).parser.scanner.source@.len() - old(self).parser.scanner.current,
            eof_rank(old(self).parser.current),
            0int,
    {
        let ghost pos0 = self.parser.scanner.current;
        let ghost cur0 = self.parser.current;
        let ghost src0 = self.parser.scanner.source@;
        let ghost had0 = self.parser.had_error;
        self.parser.advance();
        let prev_tok = self.parser.prev.unwrap();
        let rule = get_rule(prev_tok.token_type);
        match rule.prefix {
            None => {
                self.parser.error("Expected expression.");
            }
            Some(pf) => {
                proof {
                    assert(prev_tok == cur0.unwrap());
                    assert(eof_rank(cur0) == 1);
                }
                match pf {
                    PrefixFn::PrefixGrouping => self.grouping(),
                    PrefixFn::PrefixUnary => self.unary(),
                    PrefixFn::PrefixNumber => self.number(),
                    PrefixFn::PrefixLiteral => self.literal(),
                    PrefixFn::PrefixString => self.string(),
                }
                while self.is_lower_prec(precedence)
                    invariant
                        self.wf(),
                        self.parser.current is Some,
                        self.parser.prev is Some,
                        self.parser.scanner.source@ == src0,
                        self.parser.scanner.current >= pos0,
                        match self.parser.current {
                            Some(t) => t.start >= pos0,
                            None => false,
                        },
                        had0 ==> self.parser.had_error,
                        prec_val(precedence) >= 1,
                        code_extends(old(self).chunk@.code, self.chunk@.code),
                        self.chunk@.constants.len() >= old(self).chunk@.constants.len(),
                        Self::compiles_value(*old(self), *self),
                    decreases
                        self.parser.scanner.source@.len() - self.parser.scanner.current,
                        eof_rank(self.parser.current),
                {
                    let ghost op = self.parser.current.unwrap();
                    proof {
                        lemma_operator_rule(op.token_type);
                        assert(op.token_type != TokenType::Eof);
                        assert(self.parser.scanner.current > pos0);
                    }
                    self.parser.advance();
                    let ghost before_op = *self;
                    let infix = get_rule(self.parser.prev.unwrap().token_type).infix;
                    match infix {
                        Some(InfixFn::InfixBinary) => self.binary(),
                        None => {
                            proof {
                                assert(false);
                            }
                        }
                    }
                    proof {
                        lemma_extend_value(*old(self), before_op, *self);
                    }
                }
            }
        }
    }

    /// Compiles one expression at assignment precedence.
    fn expression(&mut self)
        requires
            old(self).wf(),
            old(self).parser.current is Some,
        ensures
            final(self).wf(),
            final(self).parser.current is Some,
            final(self).parser.prev is Some,
            Self::stepped(*old(self), *final(self)),
            Self::emits(*old(self), *final(self)),
            Self::compiles_value(*old(self), *final(self)),
            rule_of(old(self).parser.current.unwrap().token_type).prefix is None ==> {
                &&& final(self).parser.had_error
                &&& final(self).chunk == old(self).chunk
                &&& final(self).gc == old(self).gc
            },
            !final(self).parser.had_error ==> prec_val(
                rule_of(final(self).parser.current.unwrap().token_type).precedence,
            ) == 0,
        decreases
            old(self).parser.scanner.source@.len() - old(self).parser.scanner.current,
            eof_rank(old(self).parser.current),
            1int,
    {
        self.parse_precedence(Precedence::PrecAssignment);
    }

    /// Closes the compiled chunk with a return instruction.
    fn end_compiler(&mut self)
        requires
            old(self).wf(),
            old(self).parser.prev is Some,
        ensures
            final(self).wf(),
            final(self).parser == old(self).parser,
            final(self).gc == old(self).gc,
            final(self).chunk@.code == old(self).chunk@.code.push(0),
            final(self).chunk@.constants == old(self).chunk@.constants,
    {
        self.emit_byte(OpCode::OpReturn.to_byte());
    }

    /// Compiles one expression from the source into the chunk: primes the
    /// parser, parses at assignment precedence, demands the end of input,
    /// and closes with a return. True exactly when no diagnostic was
    /// recorded; only then is the chunk well-formed bytecode.
    pub fn compile(&mut self, source: Vec<u8>) -> (r: bool)
        requires
            old(self).wf(),
            source@.len() < usize::MAX,
        ensures
            final(self).wf(),
            r == !final(self).parser.had_error,
            r <==> final(self).parser.diagnostics@.len() == 0,
            final(self).chunk@.code.len() >= 1,
            final(self).chunk@.code.last() == 0,
            final(self).chunk@.constants.len() <= 256,
            (r && old(self).chunk@.code.len() == 0) ==> chunk_balanced(
                final(self).chunk@.code,
                final(self).chunk@.constants.len() as int,
            ),
            r ==> (match final(self).parser.current {
                Some(t) => t.token_type == TokenType::Eof,
                None => false,
            }),
    {
        self.parser = Parser::new(source);
        self.parser.advance();
        self.expression();
        let ghost after_expr = *self;
        self.parser.consume(TokenType::Eof, "Expected end of expression.");
        self.end_compiler();
        proof {
            if !self.parser.had_error {
                // the consume just matched the end-of-input token, so the
                // scanner stood at the end and the fresh lookahead is the
                // end-of-input token again
                let t0 = after_expr.parser.current.unwrap();
                assert(t0.token_type == TokenType::Eof);
                assert(t0.end == after_expr.parser.scanner.current);
                assert(t0.start == after_expr.parser.scanner.source@.len());
                let t1 = self.parser.current.unwrap();
                if self.parser.current != after_expr.parser.current {
                    assert(t1.start >= after_expr.parser.scanner.current);
                    assert(t1.start == self.parser.scanner.source@.len());
                }
            }
        }
        proof {
            if !self.parser.had_error && old(self).chunk@.code.len() == 0 {
                let cc = self.chunk@.code;
                let cl = self.chunk@.constants.len() as int;
                let le = after_expr.chunk@.code.len() as int;
                assert(exec_ok(
                    after_expr.chunk@.code,
                    after_expr.chunk@.constants.len() as int,
                    0,
                    le,
                    0,
                ) == Some(1int));
                lemma_exec_ok_frame(
                    after_expr.chunk@.code,
                    cc,
                    after_expr.chunk@.constants.len() as int,
                    cl,
                    0,
                    le,
                    0,
                );
                assert(cc.len() - 1 == le);
                assert(cc.last() == 0);
            }
        }
        !self.parser.had_error
    }
}

/// An `OpConstant` instruction freshly emitted at the end of the code is a
/// one-value segment: it pushes the pooled constant.
proof fn lemma_constant_segment(pre: Compiler, post: Compiler)
    requires
        !post.parser.had_error ==> {
            &&& post.chunk@.code == pre.chunk@.code.push(1).push(
                pre.chunk@.constants.len() as u8,
            )
            &&& post.chunk@.constants.len() == pre.chunk@.constants.len() + 1
        },
    ensures
        Compiler::compiles_value(pre, post),
{
    if !post.parser.had_error {
        let cc = post.chunk@.code;
        let cl = post.chunk@.constants.len() as int;
        let l0 = pre.chunk@.code.len() as int;
        assert(cc[l0] == 1);
        assert(cc[l0 + 1] == pre.chunk@.constants.len() as u8);
        assert forall|d: int| d >= 0 implies (#[trigger] exec_ok(cc, cl, l0, l0 + 2, d)) == Some(d + 1) by {
            reveal_with_fuel(exec_ok, 3);
        }
    }
}

/// A clean one-value segment is never empty: it holds at least the one
/// instruction that produced the value.
proof fn lemma_operand_nonempty(pre: Compiler, mid: Compiler)
    requires
        Compiler::compiles_value(pre, mid),
        !mid.parser.had_error,
    ensures
        mid.chunk@.code.len() >= pre.chunk@.code.len() + 1,
{
    reveal_with_fuel(exec_ok, 2);
    let l0 = pre.chunk@.code.len() as int;
    let l1 = mid.chunk@.code.len() as int;
    assert(exec_ok(mid.chunk@.code, mid.chunk@.constants.len() as int, l0, l1, 0) == Some(1int));
    if l1 <= l0 {
        assert(exec_ok(mid.chunk@.code, mid.chunk@.constants.len() as int, l0, l1, 0) != Some(
            1int,
        ));
    }
}

/// A one-value segment followed by a freshly emitted unary opcode is again
/// a one-value segment.
proof fn lemma_wrap_operator(pre: Compiler, mid: Compiler, post: Compiler)
    requires
        Compiler::compiles_value(pre, mid),
        post.parser.had_error == mid.parser.had_error,
        post.chunk@.constants == mid.chunk@.constants,
        mid.chunk@.constants.len() >= pre.chunk@.constants.len(),
        code_extends(pre.chunk@.code, mid.chunk@.code),
        post.chunk@.code == mid.chunk@.code.push(10) || post.chunk@.code == mid.chunk@.code.push(
            15,
        ),
    ensures
        Compiler::emits(pre, post),
        Compiler::compiles_value(pre, post),
{
    if !post.parser.had_error {
        let cc = post.chunk@.code;
        let cl = post.chunk@.constants.len() as int;
        let l0 = pre.chunk@.code.len() as int;
        let l1 = mid.chunk@.code.len() as int;
        assert forall|d: int| d >= 0 implies (#[trigger] exec_ok(cc, cl, l0, l1, d)) == Some(
            d + 1,
        ) by {
            lemma_exec_ok_frame(
                mid.chunk@.code,
                cc,
                mid.chunk@.constants.len() as int,
                cl,
                l0,
                l1,
                d,
            );
        }
        assert forall|d: int| d >= 1 implies (#[trigger] exec_ok(cc, cl, l1, l1 + 1, d)) == Some(
            d,
        ) by {
            reveal_with_fuel(exec_ok, 3);
        }
        assert forall|d: int| d >= 0 implies (#[trigger] exec_ok(cc, cl, l0, l1 + 1, d)) == Some(
            d + 1,
        ) by {
            lemma_exec_ok_compose(cc, cl, l0, l1, l1 + 1, d, d + 1, d + 1);
        }
    }
}

/// A one-value segment followed by a freshly emitted binary opcode folds
/// the new value into the one beneath it.
proof fn lemma_fold_operator(pre: Compiler, mid: Compiler, post: Compiler)
    requires
        Compiler::compiles_value(pre, mid),
        post.parser.had_error == mid.parser.had_error,
        post.chunk@.constants == mid.chunk@.constants,
        mid.chunk@.constants.len() >= pre.chunk@.constants.len(),
        code_extends(pre.chunk@.code, mid.chunk@.code),
        exists|b: u8|
            (b == 5 || b == 6 || b == 7 || b == 8 || b == 9 || b == 11 || b == 12 || b == 13 || b
                == 14 || b == 16) && post.chunk@.code == mid.chunk@.code.push(b),
    ensures
        Compiler::emits(pre, post),
        Compiler::compiles_op(pre, post),
{
    if !post.parser.had_error {
        let cc = post.chunk@.code;
        let cl = post.chunk@.constants.len() as int;
        let l0 = pre.chunk@.code.len() as int;
        let l1 = mid.chunk@.code.len() as int;
        assert forall|d: int| d >= 0 implies (#[trigger] exec_ok(cc, cl, l0, l1, d)) == Some(
            d + 1,
        ) by {
            lemma_exec_ok_frame(
                mid.chunk@.code,
                cc,
                mid.chunk@.constants.len() as int,
                cl,
                l0,
                l1,
                d,
            );
        }
        assert forall|d: int| d >= 2 implies (#[trigger] exec_ok(cc, cl, l1, l1 + 1, d)) == Some(
            d - 1,
        ) by {
            reveal_with_fuel(exec_ok, 3);
        }
        assert forall|d: int| d >= 1 implies (#[trigger] exec_ok(cc, cl, l0, l1 + 1, d)) == Some(
            d,
        ) by {
            lemma_exec_ok_compose(cc, cl, l0, l1, l1 + 1, d, d + 1, d);
        }
    }
}

/// A one-value segment extended by an operator-folding segment is again a
/// one-value segment.
proof fn lemma_extend_value(pre: Compiler, mid: Compiler, post: Compiler)
    requires
        Compiler::compiles_value(pre, mid),
        Compiler::compiles_op(mid, post),
        Compiler::emits(mid, post),
        mid.parser.had_error ==> post.parser.had_error,
        code_extends(pre.chunk@.code, mid.chunk@.code),
        mid.chunk@.constants.len() >= pre.chunk@.constants.len(),
    ensures
        Compiler::compiles_value(pre, post),
        code_extends(pre.chunk@.code, post.chunk@.code),
        post.chunk@.constants.len() >= pre.chunk@.constants.len(),
    {
    assert forall|i: int| 0 <= i < pre.chunk@.code.len() implies post.chunk@.code[i]
        == #[trigger] pre.chunk@.code[i] by {
        assert(mid.chunk@.code[i] == pre.chunk@.code[i]);
        assert(post.chunk@.code[i] == mid.chunk@.code[i]);
    }
    if !post.parser.had_error {
        let cc = post.chunk@.code;
        let cl = post.chunk@.constants.len() as int;
        let l0 = pre.chunk@.code.len() as int;
        let l1 = mid.chunk@.code.len() as int;
        let l2 = cc.len() as int;
        assert forall|d: int| d >= 0 implies (#[trigger] exec_ok(cc, cl, l0, l1, d)) == Some(
            d + 1,
        ) by {
            lemma_exec_ok_frame(
                mid.chunk@.code,
                cc,
                mid.chunk@.constants.len() as int,
                cl,
                l0,
                l1,
                d,
            );
        }
        assert forall|d: int| d >= 0 implies (#[trigger] exec_ok(cc, cl, l0, l2, d)) == Some(
            d + 1,
        ) by {
            lemma_exec_ok_compose(cc, cl, l0, l1, l2, d, d + 1, d + 1);
        }
    }
}

} // verus!
