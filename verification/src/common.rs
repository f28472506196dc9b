//! The shared enumerations of the interpreter: the one-byte instruction tags
//! and the lexical token categories.

use vstd::prelude::*;

verus! {

/// A one-byte instruction tag. `OpConstant` carries one operand byte (the
/// constant-pool index); every other instruction is a single byte.
#[derive(Copy, Clone, Debug, PartialEq, Eq, Structural)]
pub enum OpCode {
    OpReturn,
    OpConstant,
    OpNil,
    OpTrue,
    OpFalse,
    OpEqual,
    OpGreater,
    OpLess,
    OpGreaterEqual,
    OpLessEqual,
    OpNegate,
    OpAdd,
    OpSubtract,
    OpMultiply,
    OpDivide,
    OpNot,
    OpNotEqual,
}

/// The byte that encodes an opcode in a chunk's code array.
pub open spec fn opcode_byte(op: OpCode) -> u8 {
    match op {
        OpCode::OpReturn => 0,
        OpCode::OpConstant => 1,
        OpCode::OpNil => 2,
        OpCode::OpTrue => 3,
        OpCode::OpFalse => 4,
        OpCode::OpEqual => 5,
        OpCode::OpGreater => 6,
        OpCode::OpLess => 7,
        OpCode::OpGreaterEqual => 8,
        OpCode::OpLessEqual => 9,
        OpCode::OpNegate => 10,
        OpCode::OpAdd => 11,
        OpCode::OpSubtract => 12,
        OpCode::OpMultiply => 13,
        OpCode::OpDivide => 14,
        OpCode::OpNot => 15,
        OpCode::OpNotEqual => 16,
    }
}

/// The opcode a byte decodes to, if any; bytes above the highest tag are
/// reserved and decode to nothing.
pub open spec fn opcode_of_byte(b: u8) -> Option<OpCode> {
    if b == 0 {
        Some(OpCode::OpReturn)
    } else if b == 1 {
        Some(OpCode::OpConstant)
    } else if b == 2 {
        Some(OpCode::OpNil)
    } else if b == 3 {
        Some(OpCode::OpTrue)
    } else if b == 4 {
        Some(OpCode::OpFalse)
    } else if b == 5 {
        Some(OpCode::OpEqual)
    } else if b == 6 {
        Some(OpCode::OpGreater)
    } else if b == 7 {
        Some(OpCode::OpLess)
    } else if b == 8 {
        Some(OpCode::OpGreaterEqual)
    } else if b == 9 {
        Some(OpCode::OpLessEqual)
    } else if b == 10 {
        Some(OpCode::OpNegate)
    } else if b == 11 {
        Some(OpCode::OpAdd)
    } else if b == 12 {
        Some(OpCode::OpSubtract)
    } else if b == 13 {
        Some(OpCode::OpMultiply)
    } else if b == 14 {
        Some(OpCode::OpDivide)
    } else if b == 15 {
        Some(OpCode::OpNot)
    } else if b == 16 {
        Some(OpCode::OpNotEqual)
    } else {
        None
    }
}

impl OpCode {
    /// Encode the opcode as its instruction byte.
    pub fn to_byte(self) -> (r: u8)
        ensures
            r == opcode_byte(self),
    {
        match self {
            OpCode::OpReturn => 0,
            OpCode::OpConstant => 1,
            OpCode::OpNil => 2,
            OpCode::OpTrue => 3,
            OpCode::OpFalse => 4,
            OpCode::OpEqual => 5,
            OpCode::OpGreater => 6,
            OpCode::OpLess => 7,
            OpCode::OpGreaterEqual => 8,
            OpCode::OpLessEqual => 9,
            OpCode::OpNegate => 10,
            OpCode::OpAdd => 11,
            OpCode::OpSubtract => 12,
            OpCode::OpMultiply => 13,
            OpCode::OpDivide => 14,
            OpCode::OpNot => 15,
            OpCode::OpNotEqual => 16,
        }
    }

    /// Decode an instruction byte back to its opcode.
    pub fn from_byte(b: u8) -> (r: Option<OpCode>)
        ensures
            r == opcode_of_byte(b),
    {
        if b == 0 {
            Some(OpCode::OpReturn)
        } else if b == 1 {
            Some(OpCode::OpConstant)
        } else if b == 2 {
            Some(OpCode::OpNil)
        } else if b == 3 {
            Some(OpCode::OpTrue)
        } else if b == 4 {
            Some(OpCode::OpFalse)
        } else if b == 5 {
            Some(OpCode::OpEqual)
        } else if b == 6 {
            Some(OpCode::OpGreater)
        } else if b == 7 {
            Some(OpCode::OpLess)
        } else if b == 8 {
            Some(OpCode::OpGreaterEqual)
        } else if b == 9 {
            Some(OpCode::OpLessEqual)
        } else if b == 10 {
            Some(OpCode::OpNegate)
        } else if b == 11 {
            Some(OpCode::OpAdd)
        } else if b == 12 {
            Some(OpCode::OpSubtract)
        } else if b == 13 {
            Some(OpCode::OpMultiply)
        } else if b == 14 {
            Some(OpCode::OpDivide)
        } else if b == 15 {
            Some(OpCode::OpNot)
        } else if b == 16 {
            Some(OpCode::OpNotEqual)
        } else {
            None
        }
    }
}

/// The lexical token categories. The scanner classifies every lexeme as one
/// of these.
#[derive(Copy, Clone, Debug, PartialEq, Eq, Structural)]
pub enum TokenType {
    LeftParen,
    RightParen,
    LeftBrace,
    RightBrace,
    Comma,
    Dot,
    Minus,
    Plus,
    Semicolon,
    Slash,
    Star,
    Bang,
    BangEqual,
    Equal,
    MinusEqual,
    PlusEqual,
    SlashEqual,
    StarEqual,
    EqualEqual,
    Greater,
    GreaterEqual,
    Less,
    LessEqual,
    Identifier,
    StringToken,
    Number,
    And,
    Class,
    Else,
    False,
    For,
    Fun,
    If,
    Nil,
    Or,
    Print,
    Return,
    Super,
    This,
    True,
    Var,
    While,
    Eof,
    Question,
    Colon,
}

} // verus!
