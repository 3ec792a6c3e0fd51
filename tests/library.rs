use jcw::semantics::Budget;
use jcw::text::{chars_of, code_point_char, push_decimal, trim_chars};
use jcw::{
    BuiltIns, Construct, DataStore, EvalError, Expression, FunctionTable, Line, Operator, ParseErrorKind, Program,
};

fn chars(s: &str) -> Vec<char> {
    s.chars().collect()
}

fn text(v: &[char]) -> String {
    v.iter().collect()
}

fn budget() -> Budget {
    Budget { depth: 100, steps: 10_000 }
}

#[test]
fn store_frames_drop_their_bindings() {
    let mut store = DataStore::new();
    let x = String::from("x");
    let y = String::from("y");
    store.expand();
    store.put(&x, 1);
    store.expand();
    store.put(&x, 2);
    store.put(&y, 3);
    assert_eq!(store.get(&x), Some(2));
    assert_eq!(store.get(&y), Some(3));
    store.contract();
    assert_eq!(store.get(&x), Some(2));
    assert_eq!(store.get(&y), None);
    store.contract();
    assert_eq!(store.get(&x), None);
}

#[test]
fn remove_outer_brackets_strips_one_pair() {
    assert_eq!(text(&Expression::remove_outer_brackets(&chars("  (+ 2 3) "))), "+ 2 3");
    assert_eq!(text(&Expression::remove_outer_brackets(&chars("((x))"))), "(x)");
    assert_eq!(text(&Expression::remove_outer_brackets(&chars("x"))), "x");
}

#[test]
fn evaluate_arguments_splits_outside_parentheses() {
    let fns = FunctionTable::new();
    let args = Expression::evaluate_arguments(&chars("1 (+ 2 3) 4"), &fns).unwrap();
    assert_eq!(args.len(), 3);
    assert!(matches!(args[0], Expression::Literal(1)));
    assert!(matches!(args[2], Expression::Literal(4)));
    match &args[1] {
        Expression::BuiltInFunction(op) => assert!(matches!(**op, BuiltIns::Binary(Operator::Add, _, _))),
        _ => panic!("expected an operator call"),
    }
}

#[test]
fn parse_classifies_expressions() {
    let fns = FunctionTable::new();
    assert!(matches!(Expression::parse(&chars("-17"), &fns), Ok(Expression::Literal(-17))));
    match Expression::parse(&chars("count"), &fns) {
        Ok(Expression::Variable(n)) => assert_eq!(n, "count"),
        _ => panic!("expected a variable"),
    }
    assert!(matches!(Expression::parse(&chars("( )"), &fns), Err(ParseErrorKind::EmptyExpression)));
    assert!(matches!(Expression::parse(&chars("(! 1 2)"), &fns), Err(ParseErrorKind::Arity)));
}

#[test]
fn get_function_ignores_non_operators() {
    let fns = FunctionTable::new();
    assert!(BuiltIns::get_function(&chars("foo"), &chars("1"), &fns).is_none());
    assert!(matches!(
        BuiltIns::get_function(&chars("printa"), &chars("65"), &fns),
        Some(Ok(BuiltIns::Printa(_)))
    ));
}

#[test]
fn evaluate_nested_expression() {
    let fns = FunctionTable::new();
    let e = Expression::parse(&chars("(* (+ 1 2) (- 10 4))"), &fns).unwrap();
    let mut store = DataStore::new();
    let mut out = Vec::new();
    assert_eq!(e.evaluate(&mut store, &mut out, &fns, budget()), Ok(Some(18)));
    assert!(out.is_empty());
}

#[test]
fn evaluate_reads_variables() {
    let fns = FunctionTable::new();
    let e = Expression::parse(&chars("(+ a 1)"), &fns).unwrap();
    let mut store = DataStore::new();
    store.expand();
    store.put(&String::from("a"), 41);
    let mut out = Vec::new();
    assert_eq!(e.evaluate(&mut store, &mut out, &fns, budget()), Ok(Some(42)));
}

#[test]
fn program_from_lines_registers_functions() {
    let lines: Vec<String> = vec!["func sq (x) {", "res: (* x x)", "}", "(print (sq 7))"]
        .into_iter()
        .map(String::from)
        .collect();
    let mut fns = FunctionTable::new();
    let p = Program::from_lines(&lines, &mut fns).unwrap();
    assert_eq!(fns.len(), 1);
    assert_eq!(p.program.len(), 1);
    let (out, res) = p.start(&fns, budget());
    assert_eq!(text(&out), "49\n");
    assert!(res.is_ok());
}

#[test]
fn get_sub_program_finds_matching_brace() {
    let lines: Vec<Vec<char>> = ["if 1 {", "while 0 {", "}", "x: 1", "}", "y: 2"].iter().map(|l| chars(l)).collect();
    assert_eq!(jcw::assembly::get_sub_program(&lines, 1, lines.len()), Some(4));
    assert_eq!(jcw::assembly::get_sub_program(&lines, 1, 3), None);
}

#[test]
fn construct_parse_reads_for_header() {
    let lines: Vec<Vec<char>> = ["for i 0 (+ 1 1) {", "}"].iter().map(|l| chars(l)).collect();
    let mut fns = FunctionTable::new();
    let r = Construct::parse(&lines[0], &lines, 0, 2, &mut fns);
    match r {
        Some(Ok((Construct::For(v, Expression::Literal(0), Expression::BuiltInFunction(_), body), close))) => {
            assert_eq!(v, "i");
            assert_eq!(close, 1);
            assert!(body.program.is_empty());
        }
        _ => panic!("expected a for loop"),
    }
    assert!(Construct::parse(&chars("x: 1"), &lines, 0, 2, &mut fns).is_none());
}

#[test]
fn optimise_folds_constants() {
    let fns = FunctionTable::new();
    let e = Expression::parse(&chars("(+ (* 2 3) (? 0 x 4))"), &fns).unwrap();
    match e.optimise() {
        Expression::BuiltInFunction(op) => match *op {
            BuiltIns::Binary(Operator::Add, Expression::Literal(6), Expression::BuiltInFunction(_)) => {}
            _ => panic!("unexpected shape"),
        },
        _ => panic!("unexpected shape"),
    }
    let c = Expression::parse(&chars("(+ (* 2 3) (? 0 1 4))"), &fns).unwrap();
    assert!(matches!(c.optimise(), Expression::Literal(10)));
}

#[test]
fn optimise_keeps_failing_operations() {
    let fns = FunctionTable::new();
    let e = Expression::parse(&chars("(/ 1 0)"), &fns).unwrap();
    let o = e.optimise();
    assert!(matches!(o, Expression::BuiltInFunction(_)));
    let mut store = DataStore::new();
    let mut out = Vec::new();
    assert_eq!(o.evaluate(&mut store, &mut out, &fns, budget()), Err(EvalError::DivisionByZero));
}

#[test]
fn optimised_program_prints_the_same() {
    let lines: Vec<String> = vec![
        "func f (n) {",
        "res: (+ n (* 2 3))",
        "}",
        "for i 0 3 {",
        "(print (f i) (- 10 1))",
        "}",
    ]
    .into_iter()
    .map(String::from)
    .collect();
    let mut fns = FunctionTable::new();
    let p = Program::from_lines(&lines, &mut fns).unwrap();
    let (out1, r1) = p.start(&fns, budget());
    let fns2 = fns.optimise();
    let (out2, r2) = p.optimise().start(&fns2, budget());
    assert_eq!(text(&out1), "6 9\n7 9\n8 9\n");
    assert_eq!(out1, out2);
    assert_eq!(r1, r2);
}

#[test]
fn construct_apply_runs_while() {
    let lines: Vec<String> = vec!["n: 0", "while (< n 5) {", "n: (+ n 2)", "}", "(print n)"]
        .into_iter()
        .map(String::from)
        .collect();
    let mut fns = FunctionTable::new();
    let p = Program::from_lines(&lines, &mut fns).unwrap();
    match &p.program[1] {
        Line::Construct(Construct::While(_, _)) => {}
        _ => panic!("expected a while loop"),
    }
    let (out, _) = p.start(&fns, budget());
    assert_eq!(text(&out), "6\n");
}

#[test]
fn user_function_apply_checks_argument_count() {
    let lines: Vec<String> = vec!["func two (a b) {", "res: (- a b)", "}"].into_iter().map(String::from).collect();
    let mut fns = FunctionTable::new();
    Program::from_lines(&lines, &mut fns).unwrap();
    let f = fns.get(0);
    let mut store = DataStore::new();
    let mut out = Vec::new();
    let one = vec![Expression::Literal(1)];
    assert_eq!(f.apply(&one, &mut store, &mut out, &fns, budget()), Err(EvalError::ArgumentCount));
    let two = vec![Expression::Literal(9), Expression::Literal(4)];
    assert_eq!(f.apply(&two, &mut store, &mut out, &fns, budget()), Ok(Some(5)));
}

#[test]
fn text_helpers() {
    assert_eq!(text(&trim_chars(&chars("\t a b \u{3000}"))), "a b");
    assert_eq!(chars_of("héllo"), chars("héllo"));
    let mut out = Vec::new();
    push_decimal(&mut out, i64::MIN);
    assert_eq!(text(&out), i64::MIN.to_string());
    assert_eq!(code_point_char(0x41), Some('A'));
    assert_eq!(code_point_char(0xD800), None);
    assert_eq!(code_point_char(-1), None);
    assert_eq!(code_point_char(0x110000), None);
}

#[test]
fn printed_expression_parses_back() {
    let lines: Vec<String> = vec!["func add_three (a b c) {", "res: (+ a (+ b c))", "}"].into_iter().map(String::from).collect();
    let mut fns = FunctionTable::new();
    Program::from_lines(&lines, &mut fns).unwrap();
    let src = "(print (add_three 1 (* x -2) (? (! y) 3 4)) (== 1 2) (printa 72))";
    let e = Expression::parse(&chars(src), &fns).unwrap();
    let printed = e.to_text();
    assert_eq!(text(&printed), src);
    let again = Expression::parse(&printed, &fns).unwrap();
    assert_eq!(text(&again.to_text()), src);
}

#[test]
fn printer_writes_prefix_form() {
    let fns = FunctionTable::new();
    let e = Expression::parse(&chars("  ( -   7 -8 )  "), &fns).unwrap();
    assert_eq!(text(&e.to_text()), "(- 7 -8)");
    assert_eq!(text(&Expression::Literal(i64::MIN).to_text()), "-9223372036854775808");
}

#[test]
fn call_of_unregistered_function_fails_at_run_time() {
    let fns = FunctionTable::new();
    let e = Expression::UserFunction(String::from("missing"), Vec::new());
    let mut store = DataStore::new();
    let mut out = Vec::new();
    assert_eq!(e.evaluate(&mut store, &mut out, &fns, budget()), Err(EvalError::UnknownFunction));
}
