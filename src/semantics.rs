//! The meaning of programs, as spec functions over the machine state.
//!
//! A machine is the variable store plus the output written so far. Every
//! evaluation returns the machine it ends in, also when it fails: output
//! written before a failure is kept.
//!
//! Evaluation is bounded by a budget. A user-function call runs its body with
//! one unit of depth less, and fails when no depth is left. A `while` loop runs
//! each iteration, and the iterations after it, with one step less, and fails
//! when an iteration is due and no step is left.
use vstd::prelude::*;
use crate::built_in_functions::{BuiltIns, Operator};
use crate::constructs::Construct;
use crate::data_store::StoreModel;
use crate::error::EvalError;
use crate::expression::Expression;
use crate::program::{Line, Program};
use crate::text::{chars_line, is_scalar, print_line};
use crate::user_function::UserFunction;

verus! {

/// How deep user-function calls may nest, and how many `while` iterations may run.
#[derive(Debug, Clone, Copy, PartialEq, Eq, Structural)]
pub struct Budget {
    pub depth: u64,
    pub steps: u64,
}

/// The variable store and the text printed so far.
pub struct Machine {
    pub store: StoreModel,
    pub out: Seq<char>,
}

pub open spec fn with_store(m: Machine, store: StoreModel) -> Machine {
    Machine { store, out: m.out }
}

/// The registered function of that name, the first if several.
pub open spec fn find_fn_from(reg: Seq<(Seq<char>, UserFunction)>, name: Seq<char>, k: int) -> Option<int>
    decreases reg.len() - k,
{
    if k < 0 || k >= reg.len() {
        None
    } else if reg[k].0 == name {
        Some(k)
    } else {
        find_fn_from(reg, name, k + 1)
    }
}

pub proof fn lemma_find_fn_bounds(reg: Seq<(Seq<char>, UserFunction)>, name: Seq<char>, k: int)
    ensures
        find_fn_from(reg, name, k) matches Some(j) ==> k <= j < reg.len() && reg[j].0 == name,
    decreases reg.len() - k,
{
    if 0 <= k < reg.len() && reg[k].0 != name {
        lemma_find_fn_bounds(reg, name, k + 1);
    }
}

pub open spec fn lookup_fn(reg: Seq<(Seq<char>, UserFunction)>, name: Seq<char>) -> Option<UserFunction> {
    match find_fn_from(reg, name, 0) {
        Some(k) => Some(reg[k].1),
        None => None,
    }
}

/// What a two-operand operator yields on two numbers.
pub open spec fn binary_result(op: Operator, a: i64, b: i64) -> Result<i64, EvalError> {
    match op {
        Operator::Add => match a.checked_add(b) {
            Some(v) => Ok(v),
            None => Err(EvalError::Overflow),
        },
        Operator::Sub => match a.checked_sub(b) {
            Some(v) => Ok(v),
            None => Err(EvalError::Overflow),
        },
        Operator::Mul => match a.checked_mul(b) {
            Some(v) => Ok(v),
            None => Err(EvalError::Overflow),
        },
        Operator::Div => if b == 0 {
            Err(EvalError::DivisionByZero)
        } else {
            match a.checked_div(b) {
                Some(v) => Ok(v),
                None => Err(EvalError::Overflow),
            }
        },
        Operator::Mod => if b == 0 {
            Err(EvalError::DivisionByZero)
        } else {
            match a.checked_rem(b) {
                Some(v) => Ok(v),
                None => Err(EvalError::Overflow),
            }
        },
        Operator::Eq => Ok(if a == b { 1 } else { 0 }),
        Operator::Neq => Ok(if a != b { 1 } else { 0 }),
        Operator::Lt => Ok(if a < b { 1 } else { 0 }),
        Operator::Gt => Ok(if a > b { 1 } else { 0 }),
        Operator::Le => Ok(if a <= b { 1 } else { 0 }),
        Operator::Ge => Ok(if a >= b { 1 } else { 0 }),
    }
}

pub open spec fn res_name() -> Seq<char> {
    seq!['r', 'e', 's']
}

/// Binds `params[k..]` to `vals[k..]` in order.
pub open spec fn bind_params(store: StoreModel, params: Seq<Seq<char>>, vals: Seq<i64>, k: int) -> StoreModel
    decreases params.len() - k,
{
    if k < 0 || k >= params.len() || k >= vals.len() {
        store
    } else {
        bind_params(store.assign(params[k], vals[k]), params, vals, k + 1)
    }
}

/// The store a call starts in: one frame, `res` bound to 0, then the parameters.
pub open spec fn callee_store(f: UserFunction, vals: Seq<i64>) -> StoreModel {
    bind_params(
        StoreModel::empty().push_frame().assign(res_name(), 0),
        f.args@.map_values(|s: String| s@),
        vals,
        0,
    )
}

/// Puts `pre` in front of the values of a successful list evaluation.
pub open spec fn prepend(
    pre: Seq<i64>,
    x: (Machine, Result<Seq<i64>, EvalError>),
) -> (Machine, Result<Seq<i64>, EvalError>) {
    match x.1 {
        Err(err) => (x.0, Err(err)),
        Ok(vs) => (x.0, Ok(pre + vs)),
    }
}

pub open spec fn deeper(b: Budget) -> Budget {
    Budget { depth: (b.depth - 1) as u64, steps: b.steps }
}

pub open spec fn one_step(b: Budget) -> Budget {
    Budget { depth: b.depth, steps: (b.steps - 1) as u64 }
}

/// Evaluates an expression; `Ok(None)` is the no-value of `print` and `printa`.
pub open spec fn eval_expr(
    reg: Seq<(Seq<char>, UserFunction)>,
    b: Budget,
    e: Expression,
    m: Machine,
) -> (Machine, Result<Option<i64>, EvalError>)
    decreases b.depth, b.steps, 0int, e, 0int,
{
    match e {
        Expression::Literal(v) => (m, Ok(Some(v))),
        Expression::Variable(name) => match m.store.lookup(name@) {
            Some(v) => (m, Ok(Some(v))),
            None => (m, Err(EvalError::UnboundVariable)),
        },
        Expression::BuiltInFunction(op) => apply_builtin(reg, b, *op, m),
        Expression::UserFunction(name, args) => match lookup_fn(reg, name@) {
            None => (m, Err(EvalError::UnknownFunction)),
            Some(f) => call_result(reg, b, f, args, m),
        },
    }
}

/// Calls `f` on `args`: they are evaluated in the caller's machine, then the body
/// runs in a store of its own, and the call yields the final value of `res`.
pub open spec fn call_result(
    reg: Seq<(Seq<char>, UserFunction)>,
    b: Budget,
    f: UserFunction,
    args: Vec<Expression>,
    m: Machine,
) -> (Machine, Result<Option<i64>, EvalError>)
    decreases b.depth, b.steps, 0int, args, args.len() + 1,
{
    if f.args.len() != args.len() {
        (m, Err(EvalError::ArgumentCount))
    } else if b.depth == 0 {
        (m, Err(EvalError::RecursionTooDeep))
    } else {
        let (m1, r1) = eval_list(reg, b, args, 0, m);
        match r1 {
            Err(err) => (m1, Err(err)),
            Ok(vals) => {
                let (m2, r2) = run_program(reg, deeper(b), f.code, with_store(m1, callee_store(f, vals)));
                match r2 {
                    Err(err) => (with_store(m2, m1.store), Err(err)),
                    Ok(_) => (with_store(m2, m1.store), Ok(m2.store.lookup(res_name()))),
                }
            },
        }
    }
}

/// Evaluates an expression that must yield a number.
pub open spec fn eval_value(
    reg: Seq<(Seq<char>, UserFunction)>,
    b: Budget,
    e: Expression,
    m: Machine,
) -> (Machine, Result<i64, EvalError>)
    decreases b.depth, b.steps, 0int, e, 1int,
{
    let (m1, r) = eval_expr(reg, b, e, m);
    match r {
        Err(err) => (m1, Err(err)),
        Ok(None) => (m1, Err(EvalError::VoidValue)),
        Ok(Some(v)) => (m1, Ok(v)),
    }
}

/// Evaluates `args[i..]` left to right, each to a number.
pub open spec fn eval_list(
    reg: Seq<(Seq<char>, UserFunction)>,
    b: Budget,
    args: Vec<Expression>,
    i: int,
    m: Machine,
) -> (Machine, Result<Seq<i64>, EvalError>)
    decreases b.depth, b.steps, 0int, args, args.len() - i,
{
    if i < 0 || i >= args.len() {
        (m, Ok(Seq::empty()))
    } else {
        let (m1, r1) = eval_value(reg, b, args[i], m);
        match r1 {
            Err(err) => (m1, Err(err)),
            Ok(v) => {
                let (m2, r2) = eval_list(reg, b, args, i + 1, m1);
                match r2 {
                    Err(err) => (m2, Err(err)),
                    Ok(vs) => (m2, Ok(seq![v] + vs)),
                }
            },
        }
    }
}

/// Applies an operator: all operands are evaluated, left to right, before it acts.
pub open spec fn apply_builtin(
    reg: Seq<(Seq<char>, UserFunction)>,
    b: Budget,
    op: BuiltIns,
    m: Machine,
) -> (Machine, Result<Option<i64>, EvalError>)
    decreases b.depth, b.steps, 0int, op, 0int,
{
    match op {
        BuiltIns::Binary(o, x, y) => {
            let (m1, r1) = eval_value(reg, b, x, m);
            match r1 {
                Err(err) => (m1, Err(err)),
                Ok(u) => {
                    let (m2, r2) = eval_value(reg, b, y, m1);
                    match r2 {
                        Err(err) => (m2, Err(err)),
                        Ok(v) => match binary_result(o, u, v) {
                            Err(err) => (m2, Err(err)),
                            Ok(w) => (m2, Ok(Some(w))),
                        },
                    }
                },
            }
        },
        BuiltIns::Ternary(x, y, z) => {
            let (m1, r1) = eval_value(reg, b, x, m);
            match r1 {
                Err(err) => (m1, Err(err)),
                Ok(c) => {
                    let (m2, r2) = eval_value(reg, b, y, m1);
                    match r2 {
                        Err(err) => (m2, Err(err)),
                        Ok(u) => {
                            let (m3, r3) = eval_value(reg, b, z, m2);
                            match r3 {
                                Err(err) => (m3, Err(err)),
                                Ok(v) => (m3, Ok(Some(if c != 0 { u } else { v }))),
                            }
                        },
                    }
                },
            }
        },
        BuiltIns::Not(x) => {
            let (m1, r1) = eval_value(reg, b, x, m);
            match r1 {
                Err(err) => (m1, Err(err)),
                Ok(u) => (m1, Ok(Some(if u == 0 { 1 } else { 0 }))),
            }
        },
        BuiltIns::Print(args) => {
            let (m1, r1) = eval_list(reg, b, args, 0, m);
            match r1 {
                Err(err) => (m1, Err(err)),
                Ok(vs) => (Machine { store: m1.store, out: m1.out + print_line(vs) }, Ok(None)),
            }
        },
        BuiltIns::Printa(args) => {
            let (m1, r1) = eval_list(reg, b, args, 0, m);
            match r1 {
                Err(err) => (m1, Err(err)),
                Ok(vs) => if forall|k: int| 0 <= k < vs.len() ==> is_scalar(#[trigger] vs[k] as int) {
                    (Machine { store: m1.store, out: m1.out + chars_line(vs) }, Ok(None))
                } else {
                    (m1, Err(EvalError::InvalidChar))
                },
            }
        },
    }
}

/// Runs a program in a new scope frame, popped again when the program succeeds.
pub open spec fn run_program(
    reg: Seq<(Seq<char>, UserFunction)>,
    b: Budget,
    p: Program,
    m: Machine,
) -> (Machine, Result<(), EvalError>)
    decreases b.depth, b.steps, 1int, p, 0int,
{
    let (m1, r) = run_lines(reg, b, p.program, 0, with_store(m, m.store.push_frame()));
    match r {
        Err(err) => (m1, Err(err)),
        Ok(_) => (with_store(m1, m1.store.pop_frame()), Ok(())),
    }
}

/// Runs `lines[i..]` in order, stopping at the first failure.
pub open spec fn run_lines(
    reg: Seq<(Seq<char>, UserFunction)>,
    b: Budget,
    lines: Vec<Line>,
    i: int,
    m: Machine,
) -> (Machine, Result<(), EvalError>)
    decreases b.depth, b.steps, 1int, lines, lines.len() - i,
{
    if i < 0 || i >= lines.len() {
        (m, Ok(()))
    } else {
        let (m1, r1) = run_line(reg, b, lines[i], m);
        match r1 {
            Err(err) => (m1, Err(err)),
            Ok(_) => run_lines(reg, b, lines, i + 1, m1),
        }
    }
}

/// Runs one statement.
pub open spec fn run_line(
    reg: Seq<(Seq<char>, UserFunction)>,
    b: Budget,
    line: Line,
    m: Machine,
) -> (Machine, Result<(), EvalError>)
    decreases b.depth, b.steps, 1int, line, 0int,
{
    match line {
        Line::Assignment(name, e) => {
            let (m1, r1) = eval_value(reg, b, e, m);
            match r1 {
                Err(err) => (m1, Err(err)),
                Ok(v) => (with_store(m1, m1.store.assign(name@, v)), Ok(())),
            }
        },
        Line::Expression(e) => {
            let (m1, r1) = eval_expr(reg, b, e, m);
            match r1 {
                Err(err) => (m1, Err(err)),
                Ok(_) => (m1, Ok(())),
            }
        },
        Line::Construct(c) => apply_construct(reg, b, c, m),
    }
}

/// Runs an `if`, `while` or `for`.
pub open spec fn apply_construct(
    reg: Seq<(Seq<char>, UserFunction)>,
    b: Budget,
    c: Construct,
    m: Machine,
) -> (Machine, Result<(), EvalError>)
    decreases b.depth, b.steps, 1int, c, 1int,
{
    match c {
        Construct::If(cond, body) => {
            let (m1, r1) = eval_value(reg, b, cond, m);
            match r1 {
                Err(err) => (m1, Err(err)),
                Ok(v) => if v != 0 {
                    run_program(reg, b, body, m1)
                } else {
                    (m1, Ok(()))
                },
            }
        },
        Construct::While(_, _) => run_while(reg, b, c, m),
        Construct::For(var, start, end, body) => {
            let m0 = with_store(m, m.store.push_frame());
            let (m1, r1) = eval_value(reg, b, start, m0);
            match r1 {
                Err(err) => (m1, Err(err)),
                Ok(lo) => {
                    let (m2, r2) = eval_value(reg, b, end, m1);
                    match r2 {
                        Err(err) => (m2, Err(err)),
                        Ok(hi) => close_for(run_for(reg, b, var@, lo as int, hi as int, body, m2)),
                    }
                },
            }
        },
    }
}

/// Pops the frame of a `for` loop once its iterations have succeeded.
pub open spec fn close_for(x: (Machine, Result<(), EvalError>)) -> (Machine, Result<(), EvalError>) {
    match x.1 {
        Err(err) => (x.0, Err(err)),
        Ok(_) => (with_store(x.0, x.0.store.pop_frame()), Ok(())),
    }
}

/// The iterations of a `while` construct from the machine `m` on.
pub open spec fn run_while(
    reg: Seq<(Seq<char>, UserFunction)>,
    b: Budget,
    c: Construct,
    m: Machine,
) -> (Machine, Result<(), EvalError>)
    decreases b.depth, b.steps, 1int, c, 0int,
{
    match c {
        Construct::While(cond, body) => {
            let (m1, r1) = eval_value(reg, b, cond, m);
            match r1 {
                Err(err) => (m1, Err(err)),
                Ok(v) => if v == 0 {
                    (m1, Ok(()))
                } else if b.steps == 0 {
                    (m1, Err(EvalError::StepLimit))
                } else {
                    let (m2, r2) = run_program(reg, one_step(b), body, m1);
                    match r2 {
                        Err(err) => (m2, Err(err)),
                        Ok(_) => run_while(reg, one_step(b), c, m2),
                    }
                },
            }
        },
        _ => (m, Ok(())),
    }
}

/// The iterations `i .. hi` of a `for` loop over `var`.
pub open spec fn run_for(
    reg: Seq<(Seq<char>, UserFunction)>,
    b: Budget,
    var: Seq<char>,
    i: int,
    hi: int,
    body: Program,
    m: Machine,
) -> (Machine, Result<(), EvalError>)
    decreases b.depth, b.steps, 1int, body, hi - i,
{
    if i >= hi {
        (m, Ok(()))
    } else {
        let (m1, r1) = run_program(reg, b, body, with_store(m, m.store.assign(var, i as i64)));
        match r1 {
            Err(err) => (m1, Err(err)),
            Ok(_) => run_for(reg, b, var, i + 1, hi, body, m1),
        }
    }
}

} // verus!
