//! Comparisons and logic, run as whole programs.

use forth::{render_stack, run_program, stack_capacity};

fn run_source(code: &str, stack_size: Option<usize>) -> (String, Vec<String>) {
    let source = format!("{}\n", code);
    let capacity = match stack_size {
        Some(size) => stack_capacity(Some(&size.to_string())),
        None => stack_capacity(None),
    };
    let report = run_program(&source, capacity);
    let stack_lines = render_stack(&report.stack)
        .lines()
        .map(|l| l.trim().to_string())
        .filter(|l| !l.is_empty())
        .collect();
    (report.output, stack_lines)
}

fn run_test_case(test_name: &str, code: &str, expected_stack: &[i16]) {
    let (_, output_lines) = run_source(code, None);
    let expected_lines: Vec<String> = expected_stack.iter().map(|n| n.to_string()).collect();
    assert_eq!(
        output_lines, expected_lines,
        "La salida no coincide para el test '{}'",
        test_name
    );
}

#[test]
fn integration_conditional_test_test_equals_true() {
    run_test_case("equals true", "1 1 =", &[-1]);
}

#[test]
fn integration_conditional_test_test_equals_false() {
    run_test_case("equals false", "1 2 =", &[0]);
}

#[test]
fn integration_conditional_test_test_less_true() {
    run_test_case("less true", "1 2 <", &[-1]);
}

#[test]
fn integration_conditional_test_test_less_false() {
    run_test_case("less false", "2 1 <", &[0]);
}

#[test]
fn integration_conditional_test_test_less_equals() {
    run_test_case("less equals", "2 2 <", &[0]);
}

#[test]
fn integration_conditional_test_test_more_true() {
    run_test_case("more true", "2 1 >", &[-1]);
}

#[test]
fn integration_conditional_test_test_more_false() {
    run_test_case("more false", "1 2 >", &[0]);
}

#[test]
fn integration_conditional_test_test_more_equals() {
    run_test_case("more equals", "2 2 >", &[0]);
}

#[test]
fn integration_conditional_test_test_and_none() {
    run_test_case("and none", "0 0 and", &[0]);
}

#[test]
fn integration_conditional_test_test_and_one() {
    run_test_case("and one", "-1 0 and", &[0]);
}

#[test]
fn integration_conditional_test_test_and_both() {
    run_test_case("and both", "-1 -1 and", &[-1]);
}

#[test]
fn integration_conditional_test_test_or_none() {
    run_test_case("or none", "0 0 or", &[0]);
}

#[test]
fn integration_conditional_test_test_or_one() {
    run_test_case("or one", "-1 0 or", &[-1]);
}

#[test]
fn integration_conditional_test_test_or_both() {
    run_test_case("or both", "-1 -1 or", &[-1]);
}

#[test]
fn integration_conditional_test_test_not_true() {
    run_test_case("not true", "-1 not", &[0]);
}

#[test]
fn integration_conditional_test_test_not_false() {
    run_test_case("not false", "0 not", &[-1]);
}

#[test]
fn integration_conditional_test_test_not_not() {
    run_test_case("not not", "10 not not", &[-1]);
}
