use rustylox::chunk::Chunk;
use rustylox::common::OpCode;
use rustylox::compiler::Compiler;
use rustylox::value::Value;

fn compiled(src: &str) -> Compiler {
    let mut compiler = Compiler::new(Vec::new());
    let ok = compiler.compile(src.as_bytes().to_vec());
    assert!(ok, "compile failed for {:?}", src);
    compiler
}

fn code_bytes(c: &Compiler) -> Vec<u8> {
    let mut out = Vec::new();
    for i in 0..c.chunk.code_size() {
        out.push(c.chunk.code_byte(i));
    }
    out
}

fn constants(c: &Compiler) -> Vec<Value> {
    let mut out = Vec::new();
    for i in 0..c.chunk.constants_size() {
        out.push(c.chunk.get_constant(i as u8));
    }
    out
}

#[test]
fn line_runs_cover_the_code_exactly() {
    let mut chunk = Chunk::new();
    chunk.write(OpCode::OpNil.to_byte(), 1);
    chunk.write(OpCode::OpNil.to_byte(), 1);
    chunk.write(OpCode::OpNot.to_byte(), 2);
    chunk.write(OpCode::OpReturn.to_byte(), 7);
    let mut total = 0;
    for i in 0..chunk.lines_size() {
        let entry = chunk.line_entry(i);
        assert!(entry.count >= 1);
        if i + 1 < chunk.lines_size() {
            assert_ne!(entry.line_num, chunk.line_entry(i + 1).line_num);
        }
        total += entry.count;
    }
    assert_eq!(total, chunk.code_size());
    assert_eq!(chunk.get_line(0), 1);
    assert_eq!(chunk.get_line(1), 1);
    assert_eq!(chunk.get_line(2), 2);
    assert_eq!(chunk.get_line(3), 7);
}

#[test]
fn write_long_is_little_endian_under_one_record() {
    let mut chunk = Chunk::new();
    chunk.write_long(0x1234, 3);
    assert_eq!(chunk.code_size(), 2);
    assert_eq!(chunk.code_byte(0), 0x34);
    assert_eq!(chunk.code_byte(1), 0x12);
    assert_eq!(chunk.lines_size(), 1);
    let entry = chunk.line_entry(0);
    assert_eq!((entry.line_num, entry.count), (3, 2));
}

#[test]
fn add_constant_returns_consecutive_indices() {
    let mut chunk = Chunk::new();
    assert_eq!(chunk.add_constant(Value::Number(5)), 0);
    assert_eq!(chunk.add_constant(Value::Bool(true)), 1);
    assert_eq!(chunk.get_constant(0), Value::Number(5));
    assert_eq!(chunk.get_constant(1), Value::Bool(true));
}

#[test]
fn free_empties_the_chunk() {
    let mut chunk = Chunk::new();
    chunk.write(OpCode::OpReturn.to_byte(), 1);
    chunk.free();
    assert_eq!(chunk.code_size(), 0);
    assert_eq!(chunk.constants_size(), 0);
    assert_eq!(chunk.lines_size(), 0);
}

#[test]
fn opcode_bytes_round_trip() {
    let ops = vec![
        OpCode::OpReturn,
        OpCode::OpConstant,
        OpCode::OpNil,
        OpCode::OpTrue,
        OpCode::OpFalse,
        OpCode::OpEqual,
        OpCode::OpGreater,
        OpCode::OpLess,
        OpCode::OpGreaterEqual,
        OpCode::OpLessEqual,
        OpCode::OpNegate,
        OpCode::OpAdd,
        OpCode::OpSubtract,
        OpCode::OpMultiply,
        OpCode::OpDivide,
        OpCode::OpNot,
        OpCode::OpNotEqual,
    ];
    for (i, op) in ops.iter().enumerate() {
        assert_eq!(op.to_byte() as usize, i);
        assert_eq!(OpCode::from_byte(op.to_byte()), Some(*op));
    }
    assert_eq!(OpCode::from_byte(17), None);
    assert_eq!(OpCode::from_byte(255), None);
}

#[test]
fn compiled_expression_emits_postfix_code() {
    let c = compiled("1 + 2 * 3");
    assert_eq!(
        code_bytes(&c),
        vec![
            OpCode::OpConstant.to_byte(),
            0,
            OpCode::OpConstant.to_byte(),
            1,
            OpCode::OpConstant.to_byte(),
            2,
            OpCode::OpMultiply.to_byte(),
            OpCode::OpAdd.to_byte(),
            OpCode::OpReturn.to_byte(),
        ],
    );
    assert_eq!(constants(&c), vec![Value::Number(1), Value::Number(2), Value::Number(3)]);
}

#[test]
fn higher_precedence_operator_groups_to_the_right() {
    let plain = compiled("1 + 2 * 3");
    let grouped = compiled("1 + (2 * 3)");
    assert_eq!(code_bytes(&plain), code_bytes(&grouped));
    assert_eq!(constants(&plain), constants(&grouped));
}

#[test]
fn mixed_precedence_pairs_agree_with_explicit_grouping() {
    let cases = vec![
        ("1 - 2 / 3", "1 - (2 / 3)"),
        ("1 == 2 < 3", "1 == (2 < 3)"),
        ("1 < 2 + 3", "1 < (2 + 3)"),
        ("1 + 2 * 3", "1 + (2 * 3)"),
    ];
    for (implicit, explicit) in cases {
        let a = compiled(implicit);
        let b = compiled(explicit);
        assert_eq!(code_bytes(&a), code_bytes(&b), "{} vs {}", implicit, explicit);
        assert_eq!(constants(&a), constants(&b));
    }
}

#[test]
fn equal_precedence_associates_left() {
    let cases = vec![
        ("1 - 2 - 3", "(1 - 2) - 3"),
        ("1 / 2 / 3", "(1 / 2) / 3"),
        ("1 - 2 + 3", "(1 - 2) + 3"),
        ("1 == 2 != 3", "(1 == 2) != 3"),
    ];
    for (implicit, explicit) in cases {
        let a = compiled(implicit);
        let b = compiled(explicit);
        assert_eq!(code_bytes(&a), code_bytes(&b), "{} vs {}", implicit, explicit);
    }
    let left = compiled("1 - 2 - 3");
    let right = compiled("1 - (2 - 3)");
    assert_ne!(code_bytes(&left), code_bytes(&right));
}

#[test]
fn literals_compile_to_dedicated_opcodes() {
    let c = compiled("!nil");
    assert_eq!(
        code_bytes(&c),
        vec![OpCode::OpNil.to_byte(), OpCode::OpNot.to_byte(), OpCode::OpReturn.to_byte()],
    );
    assert_eq!(c.chunk.constants_size(), 0);
}

#[test]
fn string_literal_compiles_to_a_heap_constant() {
    let c = compiled("\"hi\"");
    assert_eq!(
        code_bytes(&c),
        vec![OpCode::OpConstant.to_byte(), 0, OpCode::OpReturn.to_byte()],
    );
    assert_eq!(c.chunk.constants_size(), 1);
    assert_eq!(c.gc.count(), 1);
    assert_eq!(c.chunk.get_constant(0), Value::Obj(0));
}

#[test]
fn fractional_literals_keep_their_integer_part() {
    let c = compiled("2.5");
    assert_eq!(constants(&c), vec![Value::Number(2)]);
}

#[test]
fn oversized_literals_saturate() {
    let c = compiled("99999999999999999999999999");
    assert_eq!(constants(&c), vec![Value::Number(i64::MAX)]);
}

#[test]
fn compiled_code_lines_follow_the_source() {
    let c = compiled("1 +\n2");
    // OpConstant(1) on line 1; OpConstant(2) and OpAdd on line 2.
    assert_eq!(c.chunk.get_line(0), 1);
    assert_eq!(c.chunk.get_line(2), 2);
    assert_eq!(c.chunk.get_line(4), 2);
}
