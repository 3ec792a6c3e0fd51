use jcw::parser::interpret;
use jcw::semantics::Budget;
use jcw::{EvalError, ParseError, ParseErrorKind, RunError};

fn budget() -> Budget {
    Budget { depth: 200, steps: 100_000 }
}

fn run(src: &str) -> (String, Result<(), RunError>) {
    let (out, res) = interpret(src, budget());
    (out.iter().collect(), res)
}

#[test]
fn assignment_then_print() {
    let (out, res) = run("x: 5\n(print x)");
    assert_eq!(out, "5\n");
    assert!(res.is_ok());
}

#[test]
fn function_doubles_its_argument() {
    let (out, res) = run("func double (n) { res: (+ n n) }\n(print (double 21))");
    assert_eq!(out, "42\n");
    assert!(res.is_ok());
}

#[test]
fn function_doubles_its_argument_on_separate_lines() {
    let (out, res) = run("func double (n) {\nres: (+ n n)\n}\n(print (double 21))");
    assert_eq!(out, "42\n");
    assert!(res.is_ok());
}

#[test]
fn counted_loop_prints_each_index() {
    let (out, res) = run("for i 0 3 { (print i) }");
    assert_eq!(out, "0\n1\n2\n");
    assert!(res.is_ok());
}

#[test]
fn counted_loop_on_separate_lines() {
    let (out, res) = run("for i 0 3 {\n(print i)\n}");
    assert_eq!(out, "0\n1\n2\n");
    assert!(res.is_ok());
}

#[test]
fn nested_one_line_blocks() {
    let (out, res) = run("for i 0 3 { if i { (print i) } }");
    assert_eq!(out, "1\n2\n");
    assert!(res.is_ok());
}

#[test]
fn error_in_one_line_block_names_its_source_line() {
    let (_, res) = run("x: 1\nif 1 { (+ 1) }\n(print x)");
    assert_eq!(res, Err(RunError::Parse(ParseError { line: 2, kind: ParseErrorKind::Arity })));
    let (_, res) = run("if 1 { y: 1 }\nwhile 1 {\n(print 1)");
    assert_eq!(res, Err(RunError::Parse(ParseError { line: 2, kind: ParseErrorKind::UnclosedBlock })));
}

#[test]
fn ternary_false_branch() {
    let (out, res) = run("(print (? 0 1 2))");
    assert_eq!(out, "2\n");
    assert!(res.is_ok());
}

#[test]
fn ternary_evaluates_both_branches() {
    let (out, res) = run("(print (? 1 (print 7) 2))");
    assert_eq!(out, "7\n");
    assert_eq!(res, Err(RunError::Eval(EvalError::VoidValue)));
}

#[test]
fn print_joins_with_spaces() {
    let (out, _) = run("(print 1 -2 (* 3 4))");
    assert_eq!(out, "1 -2 12\n");
}

#[test]
fn print_without_arguments_prints_empty_line() {
    let (out, res) = run("print");
    assert_eq!(out, "\n");
    assert!(res.is_ok());
}

#[test]
fn printa_prints_characters() {
    let (out, res) = run("(printa 72 105)");
    assert_eq!(out, "Hi\n");
    assert!(res.is_ok());
}

#[test]
fn printa_rejects_surrogate() {
    let (out, res) = run("(print 1)\n(printa 55296)");
    assert_eq!(out, "1\n");
    assert_eq!(res, Err(RunError::Eval(EvalError::InvalidChar)));
}

#[test]
fn arithmetic_matches_host() {
    let (out, _) = run("(print (+ 7 -3) (- 7 -3) (* 7 -3) (/ 7 -3) (% 7 -3) (/ -7 2) (% -7 2))");
    assert_eq!(out, format!("{} {} {} {} {} {} {}\n", 7 + -3, 7 - -3, 7 * -3, 7 / -3, 7 % -3, -7 / 2, -7 % 2));
}

#[test]
fn comparisons_yield_one_or_zero() {
    let (out, _) = run("(print (< 1 2) (== 1 2) (> 1 2) (<= 2 2) (>= 1 2) (!= 1 2))");
    assert_eq!(out, "1 0 0 1 0 1\n");
}

#[test]
fn not_maps_zero_to_one() {
    let (out, _) = run("(print (! 0) (! 5) (! -1))");
    assert_eq!(out, "1 0 0\n");
}

#[test]
fn division_by_zero_is_an_error() {
    let (_, res) = run("(print (/ 1 0))");
    assert_eq!(res, Err(RunError::Eval(EvalError::DivisionByZero)));
    let (_, res) = run("(print (% 1 0))");
    assert_eq!(res, Err(RunError::Eval(EvalError::DivisionByZero)));
}

#[test]
fn overflow_is_an_error() {
    let (_, res) = run("(print (+ 9223372036854775807 1))");
    assert_eq!(res, Err(RunError::Eval(EvalError::Overflow)));
    let (_, res) = run("(print (/ -9223372036854775808 -1))");
    assert_eq!(res, Err(RunError::Eval(EvalError::Overflow)));
}

#[test]
fn smallest_literal_parses() {
    let (out, res) = run("(print -9223372036854775808)");
    assert_eq!(out, "-9223372036854775808\n");
    assert!(res.is_ok());
}

#[test]
fn literal_out_of_range() {
    let (_, res) = run("x: 9223372036854775808");
    assert_eq!(res, Err(RunError::Parse(ParseError { line: 1, kind: ParseErrorKind::LiteralOutOfRange })));
}

#[test]
fn unbound_variable() {
    let (_, res) = run("(print y)");
    assert_eq!(res, Err(RunError::Eval(EvalError::UnboundVariable)));
}

#[test]
fn if_body_variable_is_scoped() {
    let (out, res) = run("if 1 {\ny: 3\n(print y)\n}\n(print y)");
    assert_eq!(out, "3\n");
    assert_eq!(res, Err(RunError::Eval(EvalError::UnboundVariable)));
}

#[test]
fn outer_variable_updated_in_block() {
    let (out, res) = run("x: 1\nif 1 {\nx: 2\n}\n(print x)");
    assert_eq!(out, "2\n");
    assert!(res.is_ok());
}

#[test]
fn while_loop_counts() {
    let (out, res) = run("i: 0\nwhile (< i 3) {\n(print i)\ni: (+ i 1)\n}\n(print i)");
    assert_eq!(out, "0\n1\n2\n3\n");
    assert!(res.is_ok());
}

#[test]
fn for_variable_removed_after_loop() {
    let (out, res) = run("for i 0 2 {\n}\n(print i)");
    assert_eq!(out, "");
    assert_eq!(res, Err(RunError::Eval(EvalError::UnboundVariable)));
}

#[test]
fn for_variable_kept_when_bound_before() {
    let (out, res) = run("i: 10\nfor i 0 3 {\n}\n(print i)");
    assert_eq!(out, "2\n");
    assert!(res.is_ok());
}

#[test]
fn for_with_empty_range_runs_nothing() {
    let (out, res) = run("for i 3 1 {\n(print i)\n}");
    assert_eq!(out, "");
    assert!(res.is_ok());
}

#[test]
fn function_cannot_see_caller_variables() {
    let (_, res) = run("secret: 9\nfunc peek () {\nres: secret\n}\n(print (peek))");
    assert_eq!(res, Err(RunError::Eval(EvalError::UnboundVariable)));
}

#[test]
fn function_without_res_assignment_yields_zero() {
    let (out, res) = run("func nothing (a) {\nb: a\n}\n(print (nothing 5))");
    assert_eq!(out, "0\n");
    assert!(res.is_ok());
}

#[test]
fn recursive_function() {
    let src = "func fact (n) {\nres: 1\nif (> n 1) {\nres: (* n (fact (- n 1)))\n}\n}\n(print (fact 10))";
    let (out, res) = run(src);
    assert_eq!(out, "3628800\n");
    assert!(res.is_ok());
}

#[test]
fn runaway_recursion_is_reported() {
    let (_, res) = run("func f (n) {\nres: (f n)\n}\n(print (f 1))");
    assert_eq!(res, Err(RunError::Eval(EvalError::RecursionTooDeep)));
}

#[test]
fn endless_loop_hits_step_limit() {
    let (_, res) = run("while 1 {\n}");
    assert_eq!(res, Err(RunError::Eval(EvalError::StepLimit)));
}

#[test]
fn wrong_arity_is_a_parse_error() {
    let (_, res) = run("x: 1\n(print (+ 1))");
    assert_eq!(res, Err(RunError::Parse(ParseError { line: 2, kind: ParseErrorKind::Arity })));
}

#[test]
fn call_with_wrong_argument_count_is_a_parse_error() {
    let (_, res) = run("func f (a b) {\n}\n(print (f 1))");
    assert_eq!(res, Err(RunError::Parse(ParseError { line: 3, kind: ParseErrorKind::Arity })));
}

#[test]
fn unclosed_block() {
    let (out, res) = run("(print 1)\nif 1 {\n(print 2)");
    assert_eq!(out, "");
    assert_eq!(res, Err(RunError::Parse(ParseError { line: 2, kind: ParseErrorKind::UnclosedBlock })));
}

#[test]
fn stray_closing_brace() {
    let (_, res) = run("(print 1)\n}");
    assert_eq!(res, Err(RunError::Parse(ParseError { line: 2, kind: ParseErrorKind::UnmatchedBrace })));
}

#[test]
fn duplicate_function() {
    let (_, res) = run("func f () {\n}\nfunc f () {\n}");
    assert_eq!(res, Err(RunError::Parse(ParseError { line: 3, kind: ParseErrorKind::DuplicateFunction })));
}

#[test]
fn malformed_parameter_list() {
    let (_, res) = run("func f n {\n}");
    assert_eq!(res, Err(RunError::Parse(ParseError { line: 1, kind: ParseErrorKind::MalformedHeader })));
}

#[test]
fn empty_argument_is_an_error() {
    let (_, res) = run("(print 1  2)");
    assert_eq!(res, Err(RunError::Parse(ParseError { line: 1, kind: ParseErrorKind::EmptyExpression })));
}

#[test]
fn print_used_as_value_is_an_error() {
    let (out, res) = run("x: (print 4)");
    assert_eq!(out, "4\n");
    assert_eq!(res, Err(RunError::Eval(EvalError::VoidValue)));
}

#[test]
fn nested_blocks_and_blank_lines() {
    let src = "  total: 0  \n\nfor i 0 3 {\n  for j 0 2 {\n    total: (+ total (* i j))\n  }\n}\n(print total)";
    let (out, res) = run(src);
    assert_eq!(out, "3\n");
    assert!(res.is_ok());
}

#[test]
fn empty_program_prints_nothing() {
    let (out, res) = run("");
    assert_eq!(out, "");
    assert!(res.is_ok());
    let (out, res) = run("\n  \n");
    assert_eq!(out, "");
    assert!(res.is_ok());
}

#[test]
fn nested_blocks_without_res_yield_zero() {
    let src = "func f (n) {\nif n {\nm: (* n 2)\nwhile (> m 0) {\nm: (- m 1)\n}\n}\n}\n(print (f 3))";
    let (out, res) = run(src);
    assert_eq!(out, "0\n");
    assert!(res.is_ok());
}

#[test]
fn res_assigned_in_nested_block_is_returned() {
    let src = "func sign (n) {\nif (< n 0) {\nres: -1\n}\nif (> n 0) {\nres: 1\n}\n}\n(print (sign -5) (sign 0) (sign 9))";
    let (out, res) = run(src);
    assert_eq!(out, "-1 0 1\n");
    assert!(res.is_ok());
}
