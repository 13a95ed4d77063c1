use kentauri::chunk::Chunk;
use kentauri::errors::format_usize;
use kentauri::globals::Globals;
use kentauri::intern::{intern, interned_eq, interned_str};
use kentauri::numeric::{
    num_add, num_div, num_eq, num_format, num_gt, num_is_nan, num_lt, num_mul, num_neg, num_parse,
    num_sub, num_trunc,
};
use kentauri::opcode::{op_from_byte, op_to_byte, OpCode};
use kentauri::scope::{LocalResolution, ScopeTracker};
use kentauri::token::{Token, TokenType};
use kentauri::value::{ObjStr, Value};

#[test]
fn opcode_bytes_round_trip() {
    let ops = [
        OpCode::OP_RETURN,
        OpCode::OP_CONST,
        OpCode::OP_NIL,
        OpCode::OP_TRUE,
        OpCode::OP_FALSE,
        OpCode::OP_EQUAL,
        OpCode::OP_GREATER,
        OpCode::OP_LESS,
        OpCode::OP_NEGATE,
        OpCode::OP_NOT,
        OpCode::OP_ADD,
        OpCode::OP_SUB,
        OpCode::OP_MUL,
        OpCode::OP_DIV,
        OpCode::OP_PRINT,
        OpCode::OP_POP,
        OpCode::OP_DEF_GLOBAL,
        OpCode::OP_GET_GLOBAL,
        OpCode::OP_SET_GLOBAL,
        OpCode::OP_GET_LOCAL,
        OpCode::OP_SET_LOCAL,
    ];
    for (i, op) in ops.iter().enumerate() {
        assert_eq!(op_to_byte(*op), i as u8);
        assert_eq!(op_from_byte(i as u8), Some(*op));
    }
    assert_eq!(op_from_byte(21), None);
    assert_eq!(op_from_byte(255), None);
}

#[test]
fn chunk_line_index_reports_lines_monotonically() {
    let mut chunk = Chunk::new();
    chunk.write_byte(10, 1);
    chunk.write_byte(11, 1);
    chunk.write_byte(12, 2);
    chunk.write_byte(13, 5);
    assert_eq!(chunk.get_code_line(0), 1);
    assert_eq!(chunk.get_code_line(1), 1);
    assert_eq!(chunk.get_code_line(2), 2);
    assert_eq!(chunk.get_code_line(3), 5);

    let mut previous = 0;
    for offset in 0..4 {
        let line = chunk.get_code_line(offset);
        assert!(line >= previous);
        previous = line;
    }
}

#[test]
fn chunk_add_const_returns_positions() {
    let mut chunk = Chunk::new();
    assert_eq!(chunk.add_const(Value::Nil), 0);
    assert_eq!(chunk.add_const(Value::Bool(true)), 1);
    assert_eq!(chunk.add_const(Value::Number(0)), 2);
    assert_eq!(chunk.const_pool.values.len(), 3);
}

#[test]
fn chunk_byte_sequences_are_inclusive() {
    let mut chunk = Chunk::new();
    chunk.write_byte(7, 1);
    chunk.write_byte(8, 1);
    chunk.write_byte(9, 1);
    assert_eq!(chunk.get_byte_sequence(0, 1), &[7u8, 8u8][..]);
    assert_eq!(chunk.get_byte_sequence(1, 2), &[8u8, 9u8][..]);
}

#[test]
fn scope_tracks_locals_and_pops_on_end() {
    let mut scope = ScopeTracker::new();
    assert!(scope.is_global());

    scope.begin();
    assert!(!scope.is_global());

    scope.add_local(Token::new(TokenType::IDENTIFIER, "a".to_string(), 1));
    assert_eq!(scope.locate_local("a"), LocalResolution::OwnInitializer);

    scope.define_last();
    assert_eq!(scope.locate_local("a"), LocalResolution::Slot(0));
    assert_eq!(scope.locate_local("b"), LocalResolution::Absent);
    assert!(scope.declared_in_scope("a"));
    assert!(!scope.declared_in_scope("b"));

    scope.begin();
    scope.add_local(Token::new(TokenType::IDENTIFIER, "a".to_string(), 2));
    scope.define_last();
    assert_eq!(scope.locate_local("a"), LocalResolution::Slot(1));
    assert!(!scope.declared_in_scope("b"));

    assert_eq!(scope.end(), 1);
    assert_eq!(scope.locate_local("a"), LocalResolution::Slot(0));
    assert_eq!(scope.end(), 1);
    assert!(scope.is_global());
}

#[test]
fn value_equality_is_symmetric_and_tag_strict() {
    let one = Value::Number(1.0f64.to_bits());
    let other_one = Value::Number(1.0f64.to_bits());
    let two = Value::Number(2.0f64.to_bits());
    let hello = Value::Str(ObjStr::new("hello"));
    let hello_again = Value::Str(ObjStr::new("hello"));
    let world = Value::Str(ObjStr::new("world"));

    assert!(one.eq(&other_one));
    assert!(!one.eq(&two));
    assert!(hello.eq(&hello_again));
    assert!(!hello.eq(&world));
    assert!(Value::Nil.eq(&Value::Nil));
    assert!(Value::Bool(true).eq(&Value::Bool(true)));
    assert!(!Value::Bool(true).eq(&Value::Bool(false)));

    assert!(!one.eq(&hello));
    assert!(!hello.eq(&one));
    assert!(!Value::Nil.eq(&Value::Bool(false)));

    assert_eq!(one.eq(&two), two.eq(&one));
    assert_eq!(one.eq(&hello), hello.eq(&one));
}

#[test]
fn value_truthiness_and_rendering() {
    assert!(Value::Nil.is_falsy());
    assert!(Value::Bool(false).is_falsy());
    assert!(!Value::Bool(true).is_falsy());
    assert!(!Value::Number(0.0f64.to_bits()).is_falsy());
    assert!(Value::Str(ObjStr::new("")).is_falsy());
    assert!(!Value::Str(ObjStr::new("x")).is_falsy());

    assert_eq!(Value::Nil.render(), "nil");
    assert_eq!(Value::Bool(true).render(), "true");
    assert_eq!(Value::Bool(false).render(), "false");
    assert_eq!(Value::Number(7.0f64.to_bits()).render(), "7");
    assert_eq!(Value::Str(ObjStr::new("raw")).render(), "raw");
}

#[test]
fn numeric_wrappers_compute_ieee_arithmetic() {
    let one = 1.0f64.to_bits();
    let two = 2.0f64.to_bits();
    let three = 3.0f64.to_bits();
    let half = 0.5f64.to_bits();

    assert_eq!(num_add(one, two), three);
    assert_eq!(num_sub(three, two), one);
    assert_eq!(num_mul(half, two), one);
    assert_eq!(num_div(one, two), half);
    assert_eq!(num_neg(one), (-1.0f64).to_bits());
    assert_eq!(num_neg(num_neg(one)), one);
}

#[test]
fn numeric_parse_and_format_round_values() {
    assert_eq!(num_parse("1"), Some(1.0f64.to_bits()));
    assert_eq!(num_parse("1.5"), Some(1.5f64.to_bits()));
    assert_eq!(num_parse("not a number"), None);
    assert_eq!(num_format(7.0f64.to_bits()), "7");
    assert_eq!(num_format(3.5f64.to_bits()), "3.5");
    assert_eq!(num_format((-4.0f64).to_bits()), "-4");
}

#[test]
fn numeric_comparisons_respect_nan() {
    let one = 1.0f64.to_bits();
    let two = 2.0f64.to_bits();
    let nan = f64::NAN.to_bits();
    let pos_zero = 0.0f64.to_bits();
    let neg_zero = (-0.0f64).to_bits();

    assert!(num_lt(one, two));
    assert!(!num_lt(two, one));
    assert!(num_gt(two, one));
    assert!(num_eq(one, one));
    assert!(!num_eq(one, two));

    assert!(num_is_nan(nan));
    assert!(!num_is_nan(one));
    assert!(!num_eq(nan, nan));
    assert!(!num_lt(nan, one));
    assert!(!num_gt(nan, one));

    assert!(num_eq(pos_zero, neg_zero));
    assert!(!num_lt(neg_zero, pos_zero));
}

#[test]
fn numeric_truncation_toward_zero() {
    assert_eq!(num_trunc(2.9f64.to_bits()), 2);
    assert_eq!(num_trunc(0.4f64.to_bits()), 0);
    assert_eq!(num_trunc(f64::NAN.to_bits()), 0);
    assert_eq!(num_trunc((-3.5f64).to_bits()), 0);
}

#[test]
fn interning_canonicalizes_strings() {
    let a = intern("same text");
    let b = intern("same text");
    let c = intern("other text");
    assert!(interned_eq(&a, &b));
    assert!(!interned_eq(&a, &c));
    assert_eq!(interned_str(&a), "same text");
    assert_eq!(interned_str(&c), "other text");
}

#[test]
fn globals_define_get_and_assign() {
    let mut globals = Globals::new();
    let name = intern("answer");
    let other = intern("other");

    assert!(globals.get(&name).is_none());
    globals.define(name, Value::Number(1.0f64.to_bits()));
    assert!(globals.get(&name).is_some());

    globals.define(name, Value::Number(2.0f64.to_bits()));
    match globals.get(&name) {
        Some(Value::Number(bits)) => assert_eq!(bits, 2.0f64.to_bits()),
        _ => panic!("expected a number"),
    }

    assert!(globals.assign(name, Value::Bool(true)));
    assert!(!globals.assign(other, Value::Bool(true)));
    assert!(globals.get(&other).is_none());
}

#[test]
fn format_usize_renders_decimal() {
    assert_eq!(format_usize(0), "0");
    assert_eq!(format_usize(7), "7");
    assert_eq!(format_usize(10), "10");
    assert_eq!(format_usize(12345), "12345");
}

#[test]
fn token_constructors() {
    let t = Token::new(TokenType::NUMBER, "42".to_string(), 3);
    assert_eq!(t.token_type, TokenType::NUMBER);
    assert_eq!(t.lexem, "42");
    assert_eq!(t.line, 3);

    let eof = Token::eof(9);
    assert_eq!(eof.token_type, TokenType::EOF);
    assert_eq!(eof.line, 9);

    let err = Token::error("boom", 4);
    assert_eq!(err.token_type, TokenType::ERROR);
    assert_eq!(err.lexem, "boom");
    assert_eq!(err.line, 4);
}

#[test]
fn byte_array_to_u32_reads_three_bytes() {
    assert_eq!(kentauri::util::byte_array_to_u32(&[1, 0, 0, 0]), 1);
    assert_eq!(kentauri::util::byte_array_to_u32(&[0, 1, 0, 0]), 256);
    assert_eq!(kentauri::util::byte_array_to_u32(&[0, 0, 1, 0]), 65536);
    assert_eq!(kentauri::util::byte_array_to_u32(&[2, 3, 4, 9]), 2 + 3 * 256 + 4 * 65536);
}

#[test]
fn stack_operations() {
    let mut stack = kentauri::stack::Stack::new(256);
    assert_eq!(stack.depth(), 0);
    assert!(stack.try_pop().is_none());

    stack.push(Value::Number(1.0f64.to_bits()));
    stack.push(Value::Bool(true));
    assert_eq!(stack.depth(), 2);
    assert!(matches!(stack.peek(), Value::Bool(true)));
    assert!(matches!(stack.get(0), Value::Number(_)));

    stack.set(Value::Nil, 0);
    assert!(matches!(stack.get(0), Value::Nil));

    assert!(matches!(stack.pop(), Value::Bool(true)));
    assert!(matches!(stack.try_pop(), Some(Value::Nil)));

    stack.push(Value::Nil);
    stack.reset();
    assert_eq!(stack.depth(), 0);
}
