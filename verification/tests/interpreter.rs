use rustylox::vm::{InterpretResult, VM};

fn run(src: &str) -> (InterpretResult, VM) {
    let mut vm = VM::new();
    vm.init();
    let r = vm.interpret(src.as_bytes().to_vec());
    (r, vm)
}

fn printed(src: &str) -> String {
    let (r, vm) = run(src);
    assert_eq!(r, InterpretResult::InterpretOk, "expected success for {:?}", src);
    String::from_utf8(vm.printed.expect("no output")).unwrap()
}

fn runtime_failure(src: &str) -> (String, usize) {
    let (r, vm) = run(src);
    assert_eq!(r, InterpretResult::InterpretRuntimeError, "expected runtime error for {:?}", src);
    let diag = vm.runtime_diag.expect("no runtime diagnostic");
    (diag.kind.message().to_string(), diag.line)
}

fn compile_failure(src: &str) -> String {
    let (r, vm) = run(src);
    assert_eq!(r, InterpretResult::InterpretCompileError, "expected compile error for {:?}", src);
    assert!(vm.printed.is_none());
    assert!(!vm.diagnostics.is_empty());
    vm.diagnostics[0].message.to_string()
}

#[test]
fn precedence_multiplication_binds_tighter() {
    assert_eq!(printed("1 + 2 * 3"), "7");
}

#[test]
fn grouping_overrides_precedence() {
    assert_eq!(printed("(1 + 2) * 3"), "9");
}

#[test]
fn only_nil_and_false_are_falsey() {
    assert_eq!(printed("!nil"), "true");
    assert_eq!(printed("!false"), "true");
    assert_eq!(printed("!0"), "false");
}

#[test]
fn equality_is_tag_strict() {
    assert_eq!(printed("1 == 1"), "true");
    assert_eq!(printed("1 == true"), "false");
}

#[test]
fn adding_number_and_bool_is_a_runtime_error() {
    let (msg, line) = runtime_failure("1 + true");
    assert_eq!(msg, "Operands must be two numbers or two strings.");
    assert_eq!(line, 1);
}

#[test]
fn string_concatenation_keeps_order() {
    assert_eq!(printed("\"ab\" + \"cd\""), "\"abcd\"");
}

#[test]
fn string_equality_compares_content() {
    assert_eq!(printed("\"ab\" == \"ab\""), "true");
    assert_eq!(printed("\"ab\" == \"ac\""), "false");
    assert_eq!(printed("\"ab\" == 1"), "false");
    assert_eq!(printed("nil == nil"), "true");
}

#[test]
fn number_literals_round_trip() {
    assert_eq!(printed("0"), "0");
    assert_eq!(printed("7"), "7");
    assert_eq!(printed("123"), "123");
    assert_eq!(printed("9223372036854775807"), "9223372036854775807");
}

#[test]
fn unary_negation() {
    assert_eq!(printed("-5"), "-5");
    assert_eq!(printed("--5"), "5");
    assert_eq!(printed("-(1 + 2)"), "-3");
}

#[test]
fn comparisons() {
    assert_eq!(printed("1 < 2"), "true");
    assert_eq!(printed("2 < 1"), "false");
    assert_eq!(printed("2 > 1"), "true");
    assert_eq!(printed("1 > 2"), "false");
    assert_eq!(printed("1 <= 1"), "true");
    assert_eq!(printed("2 <= 1"), "false");
    assert_eq!(printed("1 >= 1"), "true");
    assert_eq!(printed("1 >= 2"), "false");
    assert_eq!(printed("1 != 2"), "true");
    assert_eq!(printed("1 != 1"), "false");
}

#[test]
fn subtraction_multiplication_division() {
    assert_eq!(printed("3 - 1"), "2");
    assert_eq!(printed("2 * 3"), "6");
    assert_eq!(printed("6 / 2"), "3");
    assert_eq!(printed("7 / 2"), "3");
    assert_eq!(printed("-7 / 2"), "-3");
}

#[test]
fn literals_print_canonically() {
    assert_eq!(printed("true"), "true");
    assert_eq!(printed("false"), "false");
    assert_eq!(printed("nil"), "");
}

#[test]
fn addition_wraps_at_the_integer_bound() {
    assert_eq!(printed("9223372036854775807 + 1"), "-9223372036854775808");
}

#[test]
fn negate_requires_a_number() {
    let (msg, line) = runtime_failure("-true");
    assert_eq!(msg, "Operand must be a number.");
    assert_eq!(line, 1);
}

#[test]
fn arithmetic_requires_numbers() {
    let (msg, _) = runtime_failure("1 - true");
    assert_eq!(msg, "Operands must be numbers.");
    let (msg2, _) = runtime_failure("nil * 2");
    assert_eq!(msg2, "Operands must be numbers.");
    let (msg3, _) = runtime_failure("\"a\" < \"b\"");
    assert_eq!(msg3, "Operands must be numbers.");
}

#[test]
fn division_by_zero_is_a_runtime_error() {
    let (msg, line) = runtime_failure("1 / 0");
    assert_eq!(msg, "Division by zero.");
    assert_eq!(line, 1);
}

#[test]
fn runtime_error_reports_the_later_line() {
    let (msg, line) = runtime_failure("1 +\ntrue");
    assert_eq!(msg, "Operands must be two numbers or two strings.");
    assert_eq!(line, 2);
}

#[test]
fn too_many_constants_is_a_compile_error() {
    let mut src = String::from("1");
    for i in 2..=300 {
        src.push_str(" + ");
        src.push_str(&i.to_string());
    }
    assert_eq!(compile_failure(&src), "Can not have more than 255 constants.");
}

#[test]
fn empty_input_expects_an_expression() {
    assert_eq!(compile_failure(""), "Expected expression.");
}

#[test]
fn unclosed_group_expects_closing_paren() {
    assert_eq!(compile_failure("(1"), "Expected ) after expression.");
}

#[test]
fn trailing_tokens_expect_end_of_expression() {
    assert_eq!(compile_failure("1 2"), "Expected end of expression.");
}

#[test]
fn comments_are_skipped() {
    assert_eq!(printed("// leading comment\n1 + 1"), "2");
    assert_eq!(printed("1 /* inline */ + 1"), "2");
    assert_eq!(printed("/* multi\nline */ 7"), "7");
}

#[test]
fn comments_count_toward_line_numbers() {
    let (msg, line) = runtime_failure("/* one\ntwo */ 1 +\ntrue");
    assert_eq!(msg, "Operands must be two numbers or two strings.");
    assert_eq!(line, 3);
}

#[test]
fn string_values_are_truthy() {
    assert_eq!(printed("!\"\""), "false");
}
