use rustylox::common::TokenType;
use rustylox::gc::GC;
use rustylox::obj::{allocate_string, copy_string, is_obj_type, print_obj, ObjString, ObjType, Object};
use rustylox::scanner::Scanner;
use rustylox::value::{print_value, Value};
use rustylox::vm::VM;

#[test]
fn match_char_consumes_only_on_a_match() {
    let mut s = Scanner::new(b"ab".to_vec());
    assert!(!s.match_char(b'b'));
    assert!(s.match_char(b'a'));
    assert!(s.match_char(b'b'));
    assert!(!s.match_char(b'b'));
    assert!(s.is_at_end());
}

#[test]
fn peek_does_not_consume() {
    let mut s = Scanner::new(b"xy".to_vec());
    assert_eq!(s.peek(), b'x');
    assert_eq!(s.peek_next(), b'y');
    assert_eq!(s.peek(), b'x');
    assert_eq!(s.advance(), b'x');
    assert_eq!(s.peek(), b'y');
    assert_eq!(s.peek_next(), 0);
}

#[test]
fn make_token_brackets_the_lexeme_window() {
    let mut s = Scanner::new(b"abc".to_vec());
    s.advance();
    let t = s.make_token(TokenType::Identifier);
    assert_eq!((t.start, t.end, t.line), (0, 1, 1));
}

#[test]
fn heap_strings_are_indexed_in_allocation_order() {
    let mut gc = GC::new();
    let a = allocate_string(&mut gc, b"one".to_vec());
    let src = b"--two--".to_vec();
    let b = copy_string(&mut gc, &src, 2, 5);
    assert_eq!((a, b), (0, 1));
    assert_eq!(gc.count(), 2);
    assert_eq!(gc.get(0).chars, b"one".to_vec());
    assert_eq!(gc.get(1).chars, b"two".to_vec());
}

#[test]
fn object_types_answer_string() {
    let o = ObjString { chars: b"s".to_vec() };
    assert_eq!(o.get_type(), ObjType::OString);
    assert!(is_obj_type(Value::Obj(0), ObjType::OString));
    assert!(!is_obj_type(Value::Number(1), ObjType::OString));
    assert!(!is_obj_type(Value::Empty, ObjType::OString));
}

#[test]
fn printing_renders_each_tag_canonically() {
    let mut gc = GC::new();
    let idx = allocate_string(&mut gc, b"hi".to_vec());
    assert_eq!(print_value(&gc, Value::Number(42)), b"42".to_vec());
    assert_eq!(print_value(&gc, Value::Number(-7)), b"-7".to_vec());
    assert_eq!(print_value(&gc, Value::Number(i64::MIN)), b"-9223372036854775808".to_vec());
    assert_eq!(print_value(&gc, Value::Bool(true)), b"true".to_vec());
    assert_eq!(print_value(&gc, Value::Bool(false)), b"false".to_vec());
    assert_eq!(print_value(&gc, Value::Empty), Vec::<u8>::new());
    assert_eq!(print_value(&gc, Value::Obj(idx)), b"\"hi\"".to_vec());
    assert_eq!(print_obj(gc.get(idx)), b"\"hi\"".to_vec());
}

#[test]
fn falsiness_follows_the_tag() {
    assert!(VM::is_falsey(Value::Empty));
    assert!(VM::is_falsey(Value::Bool(false)));
    assert!(!VM::is_falsey(Value::Bool(true)));
    assert!(!VM::is_falsey(Value::Number(0)));
    assert!(!VM::is_falsey(Value::Obj(0)));
}

#[test]
fn stack_operations_are_last_in_first_out() {
    let mut vm = VM::new();
    vm.push(Value::Number(1));
    vm.push(Value::Number(2));
    assert_eq!(vm.peek(), Value::Number(2));
    assert_eq!(vm.peek_next(), Value::Number(1));
    assert_eq!(vm.pop(), Value::Number(2));
    assert_eq!(vm.pop(), Value::Number(1));
}

#[test]
fn value_equality_is_tag_strict_and_content_based() {
    let mut vm = VM::new();
    let mut gc = GC::new();
    let a = allocate_string(&mut gc, b"ab".to_vec());
    let b = allocate_string(&mut gc, b"ab".to_vec());
    let c = allocate_string(&mut gc, b"cd".to_vec());
    vm.gc = gc;
    assert!(vm.values_equal(Value::Obj(a), Value::Obj(b)));
    assert!(!vm.values_equal(Value::Obj(a), Value::Obj(c)));
    assert!(!vm.values_equal(Value::Obj(a), Value::Number(1)));
    assert!(vm.values_equal(Value::Number(3), Value::Number(3)));
    assert!(!vm.values_equal(Value::Bool(true), Value::Number(1)));
    assert!(vm.values_equal(Value::Empty, Value::Empty));
}

#[test]
fn concatenate_allocates_left_then_right() {
    let mut vm = VM::new();
    let mut gc = GC::new();
    let l = allocate_string(&mut gc, b"ab".to_vec());
    let r = allocate_string(&mut gc, b"cd".to_vec());
    vm.gc = gc;
    let s = vm.concatenate(l, r);
    assert_eq!(s, 2);
    assert_eq!(vm.gc.get(s).chars, b"abcd".to_vec());
}
