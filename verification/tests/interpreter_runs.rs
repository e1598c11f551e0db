use falsy::interpreter::{Interpreter, InterpreterRuntimeError};
use falsy::parser::parse;
use falsy::semantics::RuntimeErrorKind;

fn run_src(src: &str) -> (String, Result<(), InterpreterRuntimeError>) {
    let (ast, diags) = parse(src);
    assert!(diags.is_empty(), "unexpected parse diagnostics for {src}");
    Interpreter::new()
        .run_program(ast, 1_000_000)
        .expect("program did not finish within the step budget")
}

fn output_of(src: &str) -> String {
    let (out, res) = run_src(src);
    assert!(res.is_ok(), "unexpected runtime error for {src}");
    out
}

fn error_of(src: &str) -> (String, InterpreterRuntimeError) {
    let (out, res) = run_src(src);
    (out, res.expect_err("expected a runtime error"))
}

#[test]
fn adds_two_numbers() {
    assert_eq!(output_of("2 3+."), "5");
}

#[test]
fn subtracts_in_push_order() {
    assert_eq!(output_of("5 3-."), "2");
}

#[test]
fn stores_and_fetches_a_variable() {
    assert_eq!(output_of("42v:v;."), "42");
}

#[test]
fn conditional_runs_on_nonzero() {
    assert_eq!(output_of("1[5.]?"), "5");
    assert_eq!(output_of("1[35.]?"), "35");
}

#[test]
fn conditional_skips_on_zero() {
    assert_eq!(output_of("0[35.]?"), "");
}

#[test]
fn while_loop_counts_down() {
    assert_eq!(output_of("3[$0>][$.1-]#"), "321");
}

#[test]
fn add_on_single_entry_underflows() {
    let (out, err) = error_of("1+");
    assert_eq!(out, "");
    assert_eq!(err.kind(), RuntimeErrorKind::StackUnderflow);
    assert_eq!(err.span().start, 1);
    assert_eq!(err.span().end, 2);
    assert!(!err.reason().is_empty());
}

#[test]
fn dup_swap_rot_pick_underflow_on_short_stacks() {
    assert_eq!(error_of("$").1.kind(), RuntimeErrorKind::StackUnderflow);
    assert_eq!(error_of("1\\").1.kind(), RuntimeErrorKind::StackUnderflow);
    assert_eq!(error_of("1 2@").1.kind(), RuntimeErrorKind::StackUnderflow);
    assert_eq!(error_of("\u{f8}").1.kind(), RuntimeErrorKind::StackUnderflow);
}

#[test]
fn drop_on_empty_stack_underflows() {
    assert_eq!(error_of("%").1.kind(), RuntimeErrorKind::StackUnderflow);
}

#[test]
fn dup_duplicates_the_top() {
    assert_eq!(output_of("5$.."), "55");
}

#[test]
fn drop_discards_the_top() {
    assert_eq!(output_of("1 2%."), "1");
}

#[test]
fn swap_exchanges_the_top_two() {
    assert_eq!(output_of("1 2\\.."), "12");
}

#[test]
fn rot_brings_the_third_to_the_top() {
    assert_eq!(output_of("1 2 3@..."), "132");
}

#[test]
fn pick_copies_by_depth() {
    assert_eq!(output_of("1 2 1\u{f8}..."), "121");
    assert_eq!(output_of("7 0\u{f8}.."), "77");
}

#[test]
fn pick_rejects_an_out_of_range_index() {
    assert_eq!(error_of("5\u{f8}").1.kind(), RuntimeErrorKind::IndexOutOfRange);
    assert_eq!(error_of("1 2 2\u{f8}").1.kind(), RuntimeErrorKind::IndexOutOfRange);
}

#[test]
fn pick_rejects_a_lambda_index() {
    assert_eq!(error_of("1[2]\u{f8}").1.kind(), RuntimeErrorKind::TypeMismatch);
}

#[test]
fn division_truncates_towards_zero() {
    assert_eq!(output_of("7 2/."), "3");
    assert_eq!(output_of("7_2/."), "-3");
    assert_eq!(output_of("7 2_/."), "-3");
}

#[test]
fn division_by_zero_fails() {
    assert_eq!(error_of("1 0/").1.kind(), RuntimeErrorKind::DivisionByZero);
}

#[test]
fn addition_wraps_around() {
    assert_eq!(output_of("2147483647 1+."), "-2147483648");
}

#[test]
fn comparisons_yield_all_ones_or_zero() {
    assert_eq!(output_of("3 2>."), "-1");
    assert_eq!(output_of("2 3>."), "0");
    assert_eq!(output_of("4 4=."), "-1");
    assert_eq!(output_of("4 5=."), "0");
}

#[test]
fn bitwise_operators_work() {
    assert_eq!(output_of("6 3&."), "2");
    assert_eq!(output_of("6 3|."), "7");
    assert_eq!(output_of("0~."), "-1");
    assert_eq!(output_of("7_."), "-7");
}

#[test]
fn execute_runs_a_lambda_on_the_shared_stack() {
    assert_eq!(output_of("2[1+]!."), "3");
}

#[test]
fn execute_rejects_an_integer() {
    assert_eq!(error_of("1!").1.kind(), RuntimeErrorKind::TypeMismatch);
}

#[test]
fn lambdas_can_be_stored_and_fetched() {
    assert_eq!(output_of("[1+]f: 2 f;!."), "3");
}

#[test]
fn fetch_of_an_unset_variable_fails() {
    assert_eq!(error_of("a;.").1.kind(), RuntimeErrorKind::UndefinedVariable);
}

#[test]
fn store_without_a_name_fails() {
    assert_eq!(error_of("1 2:").1.kind(), RuntimeErrorKind::MisuseOfName);
}

#[test]
fn a_name_cannot_be_stored_in_a_name() {
    assert_eq!(error_of("a b:").1.kind(), RuntimeErrorKind::MisuseOfName);
}

#[test]
fn fetch_without_a_name_fails() {
    assert_eq!(error_of("1;").1.kind(), RuntimeErrorKind::MisuseOfName);
}

#[test]
fn write_char_emits_the_character() {
    assert_eq!(output_of("65,66,"), "AB");
}

#[test]
fn write_char_rejects_an_invalid_code() {
    assert_eq!(error_of("1_,").1.kind(), RuntimeErrorKind::InvalidCharacterCode);
}

#[test]
fn write_str_emits_the_literal() {
    assert_eq!(output_of("\"hi there\""), "hi there");
}

#[test]
fn flush_does_nothing() {
    assert_eq!(output_of("1.\u{df}2."), "12");
}

#[test]
fn read_char_pulls_injected_bytes_then_minus_one() {
    let (ast, diags) = parse("^,^,^.");
    assert!(diags.is_empty());
    let (out, res) = Interpreter::new()
        .on_input(vec![65, 66])
        .run_program(ast, 10_000)
        .unwrap();
    assert!(res.is_ok());
    assert_eq!(out, "AB-1");
}

#[test]
fn output_appends_to_the_supplied_buffer() {
    let (ast, diags) = parse("1.");
    assert!(diags.is_empty());
    let (out, res) = Interpreter::new()
        .on_output(String::from("pre"))
        .run_program(ast, 10_000)
        .unwrap();
    assert!(res.is_ok());
    assert_eq!(out, "pre1");
}

#[test]
fn an_endless_loop_exhausts_the_budget() {
    let (ast, diags) = parse("[1][]#");
    assert!(diags.is_empty());
    assert!(Interpreter::new().run_program(ast, 10_000).is_none());
}

#[test]
fn zero_is_printed_as_zero() {
    assert_eq!(output_of("0."), "0");
}

#[test]
fn nested_conditionals_and_loops_compose() {
    assert_eq!(output_of("2[$0>][$1=[\"one \"]?$2=[\"two \"]?1-]#"), "two one ");
}
