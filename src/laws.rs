//! Laws of the language, proved over the semantics.
use vstd::prelude::*;
use crate::built_in_functions::{BuiltIns, Operator};
use crate::constructs::Construct;
use crate::data_store::{find_from, StoreModel};
use crate::error::EvalError;
use crate::assembly::names_view;
use crate::expression::Expression;
use crate::folding::{
    args_fold, builtin_folds, const_op, const_value, construct_folds, folds_to, fun_folds, line_folds,
    program_folds, table_folds,
};
use crate::program::{Line, Program};
use crate::semantics::{
    apply_builtin, apply_construct, binary_result, call_result, eval_expr, eval_list, eval_value, lookup_fn,
    one_step, run_for, run_line, run_lines, run_program, run_while, with_store, Budget, Machine,
};
use crate::user_function::UserFunction;

verus! {

/// Evaluating an expression never changes the caller's store: calls run in a
/// store of their own.
pub proof fn lemma_eval_expr_store(reg: Seq<(Seq<char>, UserFunction)>, b: Budget, e: Expression, m: Machine)
    ensures
        eval_expr(reg, b, e, m).0.store == m.store,
    decreases b.depth, b.steps, 0int, e, 0int,
{
    match e {
        Expression::BuiltInFunction(op) => lemma_apply_builtin_store(reg, b, *op, m),
        Expression::UserFunction(name, args) => match lookup_fn(reg, name@) {
            Some(f) => lemma_call_store(reg, b, f, args, m),
            None => {},
        },
        _ => {},
    }
}

pub proof fn lemma_call_store(
    reg: Seq<(Seq<char>, UserFunction)>,
    b: Budget,
    f: UserFunction,
    args: Vec<Expression>,
    m: Machine,
)
    ensures
        call_result(reg, b, f, args, m).0.store == m.store,
    decreases b.depth, b.steps, 0int, args, args.len() + 1,
{
    if f.args.len() == args.len() && b.depth != 0 {
        lemma_eval_list_store(reg, b, args, 0, m);
    }
}

pub proof fn lemma_eval_value_store(reg: Seq<(Seq<char>, UserFunction)>, b: Budget, e: Expression, m: Machine)
    ensures
        eval_value(reg, b, e, m).0.store == m.store,
    decreases b.depth, b.steps, 0int, e, 1int,
{
    lemma_eval_expr_store(reg, b, e, m);
}

pub proof fn lemma_eval_list_store(
    reg: Seq<(Seq<char>, UserFunction)>,
    b: Budget,
    args: Vec<Expression>,
    i: int,
    m: Machine,
)
    ensures
        eval_list(reg, b, args, i, m).0.store == m.store,
    decreases b.depth, b.steps, 0int, args, args.len() - i,
{
    if 0 <= i < args.len() {
        lemma_eval_value_store(reg, b, args[i], m);
        let m1 = eval_value(reg, b, args[i], m).0;
        lemma_eval_list_store(reg, b, args, i + 1, m1);
    }
}

pub proof fn lemma_apply_builtin_store(reg: Seq<(Seq<char>, UserFunction)>, b: Budget, op: BuiltIns, m: Machine)
    ensures
        apply_builtin(reg, b, op, m).0.store == m.store,
    decreases b.depth, b.steps, 0int, op, 0int,
{
    match op {
        BuiltIns::Binary(o, x, y) => {
            lemma_eval_value_store(reg, b, x, m);
            lemma_eval_value_store(reg, b, y, eval_value(reg, b, x, m).0);
        },
        BuiltIns::Ternary(x, y, z) => {
            lemma_eval_value_store(reg, b, x, m);
            let m1 = eval_value(reg, b, x, m).0;
            lemma_eval_value_store(reg, b, y, m1);
            let m2 = eval_value(reg, b, y, m1).0;
            lemma_eval_value_store(reg, b, z, m2);
        },
        BuiltIns::Not(x) => {
            lemma_eval_value_store(reg, b, x, m);
        },
        BuiltIns::Print(args) => {
            lemma_eval_list_store(reg, b, args, 0, m);
        },
        BuiltIns::Printa(args) => {
            lemma_eval_list_store(reg, b, args, 0, m);
        },
    }
}

/// The same bindings, by name, in the same frames.
pub open spec fn keeps_scope(a: StoreModel, c: StoreModel) -> bool {
    &&& c.vars == a.vars
    &&& c.frames == a.frames
    &&& c.vals.len() == a.vals.len()
}

/// `a`'s bindings first, then possibly new ones in the innermost frame.
pub open spec fn grows_scope(a: StoreModel, c: StoreModel) -> bool {
    &&& c.vars.len() >= a.vars.len()
    &&& c.vars.take(a.vars.len() as int) == a.vars
    &&& c.frames == a.frames
    &&& c.vals.len() == c.vars.len()
}

proof fn lemma_assign_grows(s: StoreModel, name: Seq<char>, v: i64)
    requires
        s.vals.len() == s.vars.len(),
    ensures
        grows_scope(s, s.assign(name, v)),
{
    crate::data_store::lemma_find_from_bounds(s.vars, name, 0);
    match s.position(name) {
        Some(i) => {
            assert(s.assign(name, v).vars.take(s.vars.len() as int) =~= s.vars);
        },
        None => {
            assert(s.assign(name, v).vars.take(s.vars.len() as int) =~= s.vars);
        },
    }
}

proof fn lemma_grows_trans(a: StoreModel, c: StoreModel, d: StoreModel)
    requires
        grows_scope(a, c),
        grows_scope(c, d),
    ensures
        grows_scope(a, d),
{
    assert(d.vars.take(a.vars.len() as int) =~= c.vars.take(a.vars.len() as int));
}

proof fn lemma_pop_after_grow(s: StoreModel, c: StoreModel)
    requires
        s.vals.len() == s.vars.len(),
        grows_scope(s.push_frame(), c),
    ensures
        keeps_scope(s, c.pop_frame()),
{
    assert(c.frames.last() == s.vars.len());
    assert(c.pop_frame().frames =~= s.frames);
    assert(c.pop_frame().vars =~= s.vars);
}

/// Running a program leaves the bindings and frames as they were when it succeeds.
pub proof fn lemma_run_program_scope(reg: Seq<(Seq<char>, UserFunction)>, b: Budget, p: Program, m: Machine)
    requires
        m.store.vals.len() == m.store.vars.len(),
    ensures
        run_program(reg, b, p, m).1 is Ok ==> keeps_scope(m.store, run_program(reg, b, p, m).0.store),
    decreases b.depth, b.steps, 1int, p, 0int,
{
    let m1 = with_store(m, m.store.push_frame());
    lemma_run_lines_scope(reg, b, p.program, 0, m1);
    if run_lines(reg, b, p.program, 0, m1).1 is Ok {
        lemma_pop_after_grow(m.store, run_lines(reg, b, p.program, 0, m1).0.store);
    }
}

pub proof fn lemma_run_lines_scope(
    reg: Seq<(Seq<char>, UserFunction)>,
    b: Budget,
    lines: Vec<Line>,
    i: int,
    m: Machine,
)
    requires
        m.store.vals.len() == m.store.vars.len(),
    ensures
        run_lines(reg, b, lines, i, m).1 is Ok ==> grows_scope(m.store, run_lines(reg, b, lines, i, m).0.store),
    decreases b.depth, b.steps, 1int, lines, lines.len() - i,
{
    if 0 <= i < lines.len() {
        lemma_run_line_scope(reg, b, lines[i], m);
        let (m1, r1) = run_line(reg, b, lines[i], m);
        if r1 is Ok {
            lemma_run_lines_scope(reg, b, lines, i + 1, m1);
            if run_lines(reg, b, lines, i + 1, m1).1 is Ok {
                lemma_grows_trans(m.store, m1.store, run_lines(reg, b, lines, i + 1, m1).0.store);
            }
        }
    } else {
        assert(m.store.vars.take(m.store.vars.len() as int) =~= m.store.vars);
    }
}

pub proof fn lemma_run_line_scope(reg: Seq<(Seq<char>, UserFunction)>, b: Budget, line: Line, m: Machine)
    requires
        m.store.vals.len() == m.store.vars.len(),
    ensures
        run_line(reg, b, line, m).1 is Ok ==> grows_scope(m.store, run_line(reg, b, line, m).0.store),
    decreases b.depth, b.steps, 1int, line, 0int,
{
    assert(m.store.vars.take(m.store.vars.len() as int) =~= m.store.vars);
    match line {
        Line::Assignment(name, e) => {
            lemma_eval_value_store(reg, b, e, m);
            let (m1, r1) = eval_value(reg, b, e, m);
            if let Ok(v) = r1 {
                lemma_assign_grows(m1.store, name@, v);
            }
        },
        Line::Expression(e) => {
            lemma_eval_expr_store(reg, b, e, m);
        },
        Line::Construct(c) => {
            lemma_apply_construct_scope(reg, b, c, m);
        },
    }
}

/// A construct leaves the bindings and frames as they were when it succeeds.
pub proof fn lemma_apply_construct_scope(reg: Seq<(Seq<char>, UserFunction)>, b: Budget, c: Construct, m: Machine)
    requires
        m.store.vals.len() == m.store.vars.len(),
    ensures
        apply_construct(reg, b, c, m).1 is Ok ==> keeps_scope(m.store, apply_construct(reg, b, c, m).0.store),
    decreases b.depth, b.steps, 1int, c, 1int,
{
    match c {
        Construct::If(cond, body) => {
            lemma_eval_value_store(reg, b, cond, m);
            let m1 = eval_value(reg, b, cond, m).0;
            lemma_run_program_scope(reg, b, body, m1);
        },
        Construct::While(_, _) => {
            lemma_run_while_scope(reg, b, c, m);
        },
        Construct::For(var, start, end, body) => {
            let m0 = with_store(m, m.store.push_frame());
            lemma_eval_value_store(reg, b, start, m0);
            let (m1, r1) = eval_value(reg, b, start, m0);
            lemma_eval_value_store(reg, b, end, m1);
            let (m2, r2) = eval_value(reg, b, end, m1);
            if let (Ok(lo), Ok(hi)) = (r1, r2) {
                lemma_run_for_scope(reg, b, var@, lo as int, hi as int, body, m2);
                let (m3, r3) = run_for(reg, b, var@, lo as int, hi as int, body, m2);
                if r3 is Ok {
                    lemma_pop_after_grow(m.store, m3.store);
                }
            }
        },
    }
}

pub proof fn lemma_run_while_scope(reg: Seq<(Seq<char>, UserFunction)>, b: Budget, c: Construct, m: Machine)
    requires
        m.store.vals.len() == m.store.vars.len(),
    ensures
        run_while(reg, b, c, m).1 is Ok ==> keeps_scope(m.store, run_while(reg, b, c, m).0.store),
    decreases b.depth, b.steps, 1int, c, 0int,
{
    if let Construct::While(cond, body) = c {
        lemma_eval_value_store(reg, b, cond, m);
        let (m1, r1) = eval_value(reg, b, cond, m);
        if let Ok(v) = r1 {
            if v != 0 && b.steps != 0 {
                lemma_run_program_scope(reg, one_step(b), body, m1);
                let (m2, r2) = run_program(reg, one_step(b), body, m1);
                if r2 is Ok {
                    lemma_run_while_scope(reg, one_step(b), c, m2);
                }
            }
        }
    }
}

pub proof fn lemma_run_for_scope(
    reg: Seq<(Seq<char>, UserFunction)>,
    b: Budget,
    var: Seq<char>,
    i: int,
    hi: int,
    body: Program,
    m: Machine,
)
    requires
        m.store.vals.len() == m.store.vars.len(),
    ensures
        run_for(reg, b, var, i, hi, body, m).1 is Ok ==> grows_scope(m.store, run_for(reg, b, var, i, hi, body, m).0.store),
    decreases b.depth, b.steps, 1int, body, hi - i,
{
    if i < hi {
        let s1 = m.store.assign(var, i as i64);
        lemma_assign_grows(m.store, var, i as i64);
        lemma_run_program_scope(reg, b, body, with_store(m, s1));
        let (m1, r1) = run_program(reg, b, body, with_store(m, s1));
        if r1 is Ok {
            lemma_run_for_scope(reg, b, var, i + 1, hi, body, m1);
            let m2 = run_for(reg, b, var, i + 1, hi, body, m1).0;
            if run_for(reg, b, var, i + 1, hi, body, m1).1 is Ok {
                assert(m1.store.vars.take(s1.vars.len() as int) =~= s1.vars);
                lemma_grows_trans(m.store, s1, m1.store);
                lemma_grows_trans(m.store, m1.store, m2.store);
            }
        }
    } else {
        assert(m.store.vars.take(m.store.vars.len() as int) =~= m.store.vars);
    }
}

/// `(op x y)` with two literal operands.
pub open spec fn literal_call(o: Operator, x: i64, y: i64) -> Expression {
    Expression::BuiltInFunction(Box::new(BuiltIns::Binary(o, Expression::Literal(x), Expression::Literal(y))))
}

/// An operator on two literals touches neither store nor output, and its
/// value depends on the operands alone.
pub proof fn lemma_literal_call(reg: Seq<(Seq<char>, UserFunction)>, b: Budget, m: Machine, o: Operator, x: i64, y: i64)
    ensures
        eval_expr(reg, b, literal_call(o, x, y), m) == (m, match binary_result(o, x, y) {
            Ok(w) => Ok::<Option<i64>, EvalError>(Some(w)),
            Err(e) => Err::<Option<i64>, EvalError>(e),
        }),
{
    let op = BuiltIns::Binary(o, Expression::Literal(x), Expression::Literal(y));
    assert(eval_expr(reg, b, Expression::Literal(x), m) == (m, Ok::<Option<i64>, EvalError>(Some(x))));
    assert(eval_value(reg, b, Expression::Literal(x), m) == (m, Ok::<i64, EvalError>(x)));
    assert(eval_expr(reg, b, Expression::Literal(y), m) == (m, Ok::<Option<i64>, EvalError>(Some(y))));
    assert(eval_value(reg, b, Expression::Literal(y), m) == (m, Ok::<i64, EvalError>(y)));
    assert(eval_expr(reg, b, literal_call(o, x, y), m) == apply_builtin(reg, b, op, m));
}

/// Addition, subtraction and multiplication of two numbers give the exact
/// result when it fits in 64 bits, and an overflow error when it does not.
/// Division and remainder truncate toward zero, as Rust's do: the quotient and
/// remainder recompose the dividend, the remainder is smaller than the divisor
/// and takes the dividend's sign. A zero divisor is an error, and so is the one
/// quotient that does not fit.
pub proof fn law_arithmetic(reg: Seq<(Seq<char>, UserFunction)>, b: Budget, m: Machine, x: i64, y: i64)
    ensures
        eval_expr(reg, b, literal_call(Operator::Add, x, y), m) == (m, if i64::MIN <= x + y <= i64::MAX {
            Ok::<Option<i64>, EvalError>(Some((x + y) as i64))
        } else {
            Err::<Option<i64>, EvalError>(EvalError::Overflow)
        }),
        eval_expr(reg, b, literal_call(Operator::Sub, x, y), m) == (m, if i64::MIN <= x - y <= i64::MAX {
            Ok::<Option<i64>, EvalError>(Some((x - y) as i64))
        } else {
            Err::<Option<i64>, EvalError>(EvalError::Overflow)
        }),
        eval_expr(reg, b, literal_call(Operator::Mul, x, y), m) == (m, if i64::MIN <= x * y <= i64::MAX {
            Ok::<Option<i64>, EvalError>(Some((x * y) as i64))
        } else {
            Err::<Option<i64>, EvalError>(EvalError::Overflow)
        }),
        y == 0 ==> eval_expr(reg, b, literal_call(Operator::Div, x, y), m) == (m, Err::<Option<i64>, EvalError>(EvalError::DivisionByZero))
            && eval_expr(reg, b, literal_call(Operator::Mod, x, y), m) == (m, Err::<Option<i64>, EvalError>(EvalError::DivisionByZero)),
        x == i64::MIN && y == -1 ==> eval_expr(reg, b, literal_call(Operator::Div, x, y), m) == (m, Err::<Option<i64>, EvalError>(EvalError::Overflow)),
        y != 0 && !(x == i64::MIN && y == -1) ==> exists|q: i64, r: i64| {
            &&& eval_expr(reg, b, literal_call(Operator::Div, x, y), m) == (m, Ok::<Option<i64>, EvalError>(Some(q)))
            &&& eval_expr(reg, b, literal_call(Operator::Mod, x, y), m) == (m, Ok::<Option<i64>, EvalError>(Some(r)))
            &&& q * y + r == x
            &&& (r == 0 || (r < 0) == (x < 0))
            &&& (if r < 0 { -(r as int) } else { r as int }) < (if y < 0 { -(y as int) } else { y as int })
        },
{
    lemma_literal_call(reg, b, m, Operator::Add, x, y);
    lemma_literal_call(reg, b, m, Operator::Sub, x, y);
    lemma_literal_call(reg, b, m, Operator::Mul, x, y);
    lemma_literal_call(reg, b, m, Operator::Div, x, y);
    lemma_literal_call(reg, b, m, Operator::Mod, x, y);
    if y != 0 && !(x == i64::MIN && y == -1) {
        let xi = x as int;
        let yi = y as int;
        let q: int = if xi == 0 {
            0
        } else if xi > 0 && yi > 0 {
            xi / yi
        } else if xi < 0 && yi < 0 {
            (xi * -1) / (yi * -1)
        } else if xi < 0 {
            ((xi * -1) / yi) * -1
        } else {
            (xi / (yi * -1)) * -1
        };
        let r: int = if xi == 0 {
            0
        } else if xi > 0 && yi > 0 {
            xi % yi
        } else if xi < 0 && yi < 0 {
            ((xi * -1) % (yi * -1)) * -1
        } else if xi < 0 {
            ((xi * -1) % yi) * -1
        } else {
            xi % (yi * -1)
        };
        assert(q * yi + r == xi && (r == 0 || (r < 0) == (xi < 0)) && (if r < 0 { -r } else { r }) < (if yi < 0 { -yi } else { yi }) && -0x8000_0000_0000_0000 <= q <= 0x7fff_ffff_ffff_ffff) by (nonlinear_arith)
            requires
                q == (if xi == 0 {
                    0
                } else if xi > 0 && yi > 0 {
                    xi / yi
                } else if xi < 0 && yi < 0 {
                    (xi * -1) / (yi * -1)
                } else if xi < 0 {
                    ((xi * -1) / yi) * -1
                } else {
                    (xi / (yi * -1)) * -1
                }),
                r == (if xi == 0 {
                    0
                } else if xi > 0 && yi > 0 {
                    xi % yi
                } else if xi < 0 && yi < 0 {
                    ((xi * -1) % (yi * -1)) * -1
                } else if xi < 0 {
                    ((xi * -1) % yi) * -1
                } else {
                    xi % (yi * -1)
                }),
                yi != 0,
                -0x8000_0000_0000_0000 <= xi <= 0x7fff_ffff_ffff_ffff,
                -0x8000_0000_0000_0000 <= yi <= 0x7fff_ffff_ffff_ffff,
                !(xi == -0x8000_0000_0000_0000 && yi == -1),
        ;
        assert(x.checked_div(y) == Some(q as i64));
        assert(x.checked_rem(y) == Some(r as i64));
        assert((q as i64) * y + (r as i64) == x);
    }
}

/// Comparisons yield 1 or 0; of `<`, `==` and `>` exactly one yields 1;
/// `<=` is `<` or `==`, `>=` is `>` or `==`, and `!=` is not `==`.
pub proof fn law_comparisons(reg: Seq<(Seq<char>, UserFunction)>, b: Budget, m: Machine, x: i64, y: i64)
    ensures
        ({
            let v = |o: Operator| eval_expr(reg, b, literal_call(o, x, y), m).1;
            let one = Ok::<Option<i64>, EvalError>(Some(1));
            let zero = Ok::<Option<i64>, EvalError>(Some(0));
            &&& (v(Operator::Eq) == one || v(Operator::Eq) == zero)
            &&& (v(Operator::Neq) == one || v(Operator::Neq) == zero)
            &&& (v(Operator::Lt) == one || v(Operator::Lt) == zero)
            &&& (v(Operator::Gt) == one || v(Operator::Gt) == zero)
            &&& (v(Operator::Le) == one || v(Operator::Le) == zero)
            &&& (v(Operator::Ge) == one || v(Operator::Ge) == zero)
            &&& (v(Operator::Lt) == one) as int + (v(Operator::Eq) == one) as int + (v(Operator::Gt) == one) as int == 1
            &&& (v(Operator::Le) == one) == (v(Operator::Lt) == one || v(Operator::Eq) == one)
            &&& (v(Operator::Ge) == one) == (v(Operator::Gt) == one || v(Operator::Eq) == one)
            &&& (v(Operator::Neq) == one) == (v(Operator::Eq) == zero)
        }),
{
    lemma_literal_call(reg, b, m, Operator::Eq, x, y);
    lemma_literal_call(reg, b, m, Operator::Neq, x, y);
    lemma_literal_call(reg, b, m, Operator::Lt, x, y);
    lemma_literal_call(reg, b, m, Operator::Gt, x, y);
    lemma_literal_call(reg, b, m, Operator::Le, x, y);
    lemma_literal_call(reg, b, m, Operator::Ge, x, y);
}

/// An `if`, `while` or `for` that succeeds leaves the same names bound as
/// before it: a variable first assigned in its body, or introduced as a loop
/// variable, is gone once the block closes, and one that was bound before
/// stays bound.
pub proof fn law_block_scoping(reg: Seq<(Seq<char>, UserFunction)>, b: Budget, c: Construct, m: Machine)
    requires
        m.store.wf(),
    ensures
        apply_construct(reg, b, c, m).1 is Ok ==> {
            let after = apply_construct(reg, b, c, m).0.store;
            &&& after.vars == m.store.vars
            &&& after.frames == m.store.frames
            &&& forall|name: Seq<char>| #[trigger] after.bound(name) == m.store.bound(name)
        },
{
    lemma_apply_construct_scope(reg, b, c, m);
}

proof fn lemma_empty_program(reg: Seq<(Seq<char>, UserFunction)>, b: Budget, p: Program, m: Machine)
    requires
        p.program.len() == 0,
        m.store.vals.len() == m.store.vars.len(),
    ensures
        run_program(reg, b, p, m) == (m, Ok::<(), EvalError>(())),
{
    let m1 = with_store(m, m.store.push_frame());
    assert(run_lines(reg, b, p.program, 0, m1) == (m1, Ok::<(), EvalError>(())));
    assert(m1.store.pop_frame().vars =~= m.store.vars);
    assert(m1.store.pop_frame().vals =~= m.store.vals);
    assert(m1.store.pop_frame().frames =~= m.store.frames);
    assert(m1.store.pop_frame() == m.store);
}

proof fn lemma_for_empty_body(
    reg: Seq<(Seq<char>, UserFunction)>,
    b: Budget,
    var: Seq<char>,
    i: int,
    hi: int,
    body: Program,
    m: Machine,
)
    requires
        body.program.len() == 0,
        i < hi,
        i64::MIN <= i,
        hi <= i64::MAX + 1,
        m.store.bound(var),
        m.store.vals.len() == m.store.vars.len(),
    ensures
        run_for(reg, b, var, i, hi, body, m) == (
            with_store(m, m.store.assign(var, (hi - 1) as i64)),
            Ok::<(), EvalError>(()),
        ),
    decreases hi - i,
{
    let s1 = m.store.assign(var, i as i64);
    crate::data_store::lemma_find_from_bounds(m.store.vars, var, 0);
    lemma_empty_program(reg, b, body, with_store(m, s1));
    let p = m.store.position(var)->0;
    assert(s1.vars == m.store.vars);
    let m1 = with_store(m, s1);
    assert(run_program(reg, b, body, m1) == (m1, Ok::<(), EvalError>(())));
    if i + 1 < hi {
        lemma_for_empty_body(reg, b, var, i + 1, hi, body, m1);
        assert(s1.position(var) == m.store.position(var));
        assert(s1.assign(var, (hi - 1) as i64).vals =~= m.store.assign(var, (hi - 1) as i64).vals);
        assert(s1.assign(var, (hi - 1) as i64) == m.store.assign(var, (hi - 1) as i64));
        assert(with_store(m1, s1.assign(var, (hi - 1) as i64)) == with_store(m, m.store.assign(var, (hi - 1) as i64)));
    } else {
        assert(run_for(reg, b, var, i + 1, hi, body, m1) == (m1, Ok::<(), EvalError>(())));
    }
    assert(run_for(reg, b, var, i, hi, body, m) == run_for(reg, b, var, i + 1, hi, body, m1));
}

proof fn lemma_find_push(vars: Seq<Seq<char>>, x: Seq<char>, k: int)
    requires
        0 <= k <= vars.len(),
        find_from(vars, x, k) is None,
    ensures
        find_from(vars.push(x), x, k) == Some(vars.len() as int),
    decreases vars.len() - k,
{
    if k < vars.len() {
        lemma_find_push(vars, x, k + 1);
        assert(vars.push(x)[k] == vars[k]);
    }
}

/// After an assignment the name is bound to the assigned value.
pub proof fn lemma_assign_lookup(s: StoreModel, name: Seq<char>, v: i64)
    requires
        s.vals.len() == s.vars.len(),
    ensures
        s.assign(name, v).lookup(name) == Some(v),
{
    crate::data_store::lemma_find_from_bounds(s.vars, name, 0);
    if s.position(name) is None {
        lemma_find_push(s.vars, name, 0);
    }
}

/// A `for` loop binds its variable to each of `start .. end` in turn, in the
/// loop's own frame, where it holds the last value once the iterations end. A
/// variable bound before the loop is updated in place and keeps that value
/// after it; one that the loop introduced is removed with the loop's frame.
pub proof fn law_for_variable(
    reg: Seq<(Seq<char>, UserFunction)>,
    b: Budget,
    var: String,
    lo: i64,
    hi: i64,
    body: Program,
    m: Machine,
)
    requires
        m.store.wf(),
        body.program.len() == 0,
        lo < hi,
    ensures
        ({
            let (after, r) = apply_construct(
                reg,
                b,
                Construct::For(var, Expression::Literal(lo), Expression::Literal(hi), body),
                m,
            );
            &&& r is Ok
            &&& run_for(reg, b, var@, lo as int, hi as int, body, with_store(m, m.store.push_frame())).0.store.lookup(
                var@,
            ) == Some((hi - 1) as i64)
            &&& m.store.bound(var@) ==> after.store.lookup(var@) == Some((hi - 1) as i64)
            &&& !m.store.bound(var@) ==> !after.store.bound(var@)
        }),
{
    let c = Construct::For(var, Expression::Literal(lo), Expression::Literal(hi), body);
    let m0 = with_store(m, m.store.push_frame());
    assert(eval_value(reg, b, Expression::Literal(lo), m0) == (m0, Ok::<i64, EvalError>(lo)));
    assert(eval_value(reg, b, Expression::Literal(hi), m0) == (m0, Ok::<i64, EvalError>(hi)));
    assert(apply_construct(reg, b, c, m) == crate::semantics::close_for(
        run_for(reg, b, var@, lo as int, hi as int, body, m0),
    ));
    lemma_apply_construct_scope(reg, b, c, m);
    crate::data_store::lemma_find_from_bounds(m.store.vars, var@, 0);
    if m.store.bound(var@) {
        assert(m0.store.position(var@) == m.store.position(var@));
        lemma_for_empty_body(reg, b, var@, lo as int, hi as int, body, m0);
        let s3 = m0.store.assign(var@, (hi - 1) as i64);
        let p = m.store.position(var@)->0;
        assert(s3.pop_frame().vars =~= m.store.vars);
        assert(s3.pop_frame().position(var@) == Some(p));
        assert(s3.pop_frame().vals[p] == (hi - 1) as i64);
        lemma_assign_lookup(m0.store, var@, (hi - 1) as i64);
    } else {
        let s1 = m0.store.assign(var@, lo);
        let m1 = with_store(m0, s1);
        crate::data_store::lemma_find_from_bounds(s1.vars, var@, 0);
        assert(s1.vars[s1.vars.len() - 1] == var@);
        assert(s1.bound(var@));
        lemma_empty_program(reg, b, body, m1);
        lemma_assign_lookup(m0.store, var@, lo);
        if lo as int + 1 < hi as int {
            lemma_for_empty_body(reg, b, var@, lo + 1, hi as int, body, m1);
            lemma_assign_lookup(s1, var@, (hi - 1) as i64);
        } else {
            assert(run_for(reg, b, var@, lo + 1, hi as int, body, m1) == (m1, Ok::<(), EvalError>(())));
        }
        assert(run_for(reg, b, var@, lo as int, hi as int, body, m0) == run_for(reg, b, var@, lo + 1, hi as int, body, m1));
    }
}

pub open spec fn all_literals(args: Vec<Expression>) -> bool {
    forall|i: int| 0 <= i < args.len() ==> (#[trigger] args[i]) is Literal
}

/// The values of the literals `args[i..]`.
pub open spec fn literal_values(args: Vec<Expression>, i: int) -> Seq<i64>
    decreases args.len() - i,
{
    if i < 0 || i >= args.len() {
        Seq::empty()
    } else {
        seq![args[i]->Literal_0] + literal_values(args, i + 1)
    }
}

proof fn lemma_eval_literals(reg: Seq<(Seq<char>, UserFunction)>, b: Budget, args: Vec<Expression>, i: int, m: Machine)
    requires
        all_literals(args),
        0 <= i,
    ensures
        eval_list(reg, b, args, i, m) == (m, Ok::<Seq<i64>, EvalError>(literal_values(args, i))),
    decreases args.len() - i,
{
    if i < args.len() {
        let e = args[i];
        assert(e is Literal);
        assert(eval_expr(reg, b, e, m) == (m, Ok::<Option<i64>, EvalError>(Some(e->Literal_0))));
        assert(eval_value(reg, b, e, m) == (m, Ok::<i64, EvalError>(e->Literal_0)));
        lemma_eval_literals(reg, b, args, i + 1, m);
    }
}

/// A call with literal arguments gives the same result and prints the same
/// text whatever the caller's variables: the body cannot see them.
pub proof fn law_call_isolation(
    reg: Seq<(Seq<char>, UserFunction)>,
    b: Budget,
    name: String,
    args: Vec<Expression>,
    m1: Machine,
    m2: Machine,
)
    requires
        all_literals(args),
        m1.out == m2.out,
    ensures
        eval_expr(reg, b, Expression::UserFunction(name, args), m1).1 == eval_expr(
            reg,
            b,
            Expression::UserFunction(name, args),
            m2,
        ).1,
        eval_expr(reg, b, Expression::UserFunction(name, args), m1).0.out == eval_expr(
            reg,
            b,
            Expression::UserFunction(name, args),
            m2,
        ).0.out,
{
    lemma_eval_literals(reg, b, args, 0, m1);
    lemma_eval_literals(reg, b, args, 0, m2);
}

proof fn lemma_bind_params(store: StoreModel, params: Seq<Seq<char>>, vals: Seq<i64>, k: int)
    requires
        store.vars.len() >= 1,
        store.vars[0] == crate::semantics::res_name(),
        store.vals.len() == store.vars.len(),
        0 <= k,
    ensures
        ({
            let out = crate::semantics::bind_params(store, params, vals, k);
            &&& out.vars.len() >= 1
            &&& out.vars[0] == crate::semantics::res_name()
            &&& out.vals.len() == out.vars.len()
            &&& out.frames == store.frames
            &&& (forall|j: int| k <= j < params.len() ==> #[trigger] params[j] != crate::semantics::res_name())
                && store.vals[0] == 0 ==> out.vals[0] == 0
        }),
    decreases params.len() - k,
{
    if k < params.len() && k < vals.len() {
        let s1 = store.assign(params[k], vals[k]);
        crate::data_store::lemma_find_from_bounds(store.vars, params[k], 0);
        if params[k] != crate::semantics::res_name() {
            if let Some(p) = store.position(params[k]) {
                assert(p != 0);
            }
        }
        lemma_bind_params(s1, params, vals, k + 1);
    }
}

proof fn lemma_callee_store(f: UserFunction, vals: Seq<i64>)
    ensures
        ({
            let s = crate::semantics::callee_store(f, vals);
            &&& s.vars.len() >= 1
            &&& s.vars[0] == crate::semantics::res_name()
            &&& s.vals.len() == s.vars.len()
            &&& (forall|j: int| 0 <= j < f.args.len() ==> (#[trigger] f.args@[j])@ != crate::semantics::res_name())
                ==> s.vals[0] == 0
        }),
{
    let base = StoreModel::empty().push_frame().assign(crate::semantics::res_name(), 0);
    assert(base.vars =~= seq![crate::semantics::res_name()]);
    let params = f.args@.map_values(|s: String| s@);
    assert forall|j: int| 0 <= j < params.len() && (forall|j: int| 0 <= j < f.args.len() ==> (#[trigger] f.args@[j])@ != crate::semantics::res_name()) implies #[trigger] params[j] != crate::semantics::res_name() by {
        assert(params[j] == f.args@[j]@);
    }
    lemma_bind_params(base, params, vals, 0);
}

/// A function whose body is the single statement `res: e` returns what `e`
/// evaluates to in the call's own store, or fails as `e` fails.
pub proof fn law_res_result(
    reg: Seq<(Seq<char>, UserFunction)>,
    b: Budget,
    f: UserFunction,
    args: Vec<Expression>,
    m: Machine,
    var: String,
    e: Expression,
)
    requires
        all_literals(args),
        f.args.len() == args.len(),
        b.depth > 0,
        f.code.program.len() == 1,
        f.code.program[0] == Line::Assignment(var, e),
        var@ == crate::semantics::res_name(),
    ensures
        ({
            let start = crate::semantics::callee_store(f, literal_values(args, 0)).push_frame();
            let inner = eval_value(reg, crate::semantics::deeper(b), e, Machine { store: start, out: m.out });
            match inner.1 {
                Ok(v) => call_result(reg, b, f, args, m).1 == Ok::<Option<i64>, EvalError>(Some(v)),
                Err(err) => call_result(reg, b, f, args, m).1 == Err::<Option<i64>, EvalError>(err),
            }
        }),
{
    let vals = literal_values(args, 0);
    lemma_eval_literals(reg, b, args, 0, m);
    let callee = crate::semantics::callee_store(f, vals);
    lemma_callee_store(f, vals);
    let b1 = crate::semantics::deeper(b);
    let mc = with_store(m, callee);
    let m1 = with_store(mc, callee.push_frame());
    lemma_eval_value_store(reg, b1, e, m1);
    let (m2, r2) = eval_value(reg, b1, e, m1);
    assert(m1 == Machine { store: callee.push_frame(), out: m.out });
    if let Ok(v) = r2 {
        let s3 = m2.store.assign(var@, v);
        assert(m2.store.position(var@) == Some(0int));
        assert(run_line(reg, b1, f.code.program[0], m1) == (with_store(m2, s3), Ok::<(), EvalError>(())));
        assert(run_lines(reg, b1, f.code.program, 1, with_store(m2, s3)) == (with_store(m2, s3), Ok::<(), EvalError>(())));
        assert(run_lines(reg, b1, f.code.program, 0, m1) == (with_store(m2, s3), Ok::<(), EvalError>(())));
        let s4 = s3.pop_frame();
        assert(s4.vars =~= callee.vars);
        assert(s4.position(var@) == Some(0int));
        assert(s4.vals[0] == v);
        assert(run_program(reg, b1, f.code, mc) == (with_store(m2, s4), Ok::<(), EvalError>(())));
    } else if let Err(err) = r2 {
        assert(run_line(reg, b1, f.code.program[0], m1) == (m2, Err::<(), EvalError>(err)));
        assert(run_lines(reg, b1, f.code.program, 0, m1) == (m2, Err::<(), EvalError>(err)));
    }
}

proof fn lemma_const_eval(reg: Seq<(Seq<char>, UserFunction)>, b: Budget, e: Expression, m: Machine)
    requires
        const_value(e) is Some,
    ensures
        eval_expr(reg, b, e, m) == (m, Ok::<Option<i64>, EvalError>(const_value(e))),
        eval_value(reg, b, e, m) == (m, Ok::<i64, EvalError>(const_value(e)->0)),
    decreases e, 0int,
{
    if let Expression::BuiltInFunction(op) = e {
        lemma_const_op_eval(reg, b, *op, m);
    }
}

proof fn lemma_const_op_eval(reg: Seq<(Seq<char>, UserFunction)>, b: Budget, op: BuiltIns, m: Machine)
    requires
        const_op(op) is Some,
    ensures
        apply_builtin(reg, b, op, m) == (m, Ok::<Option<i64>, EvalError>(const_op(op))),
    decreases op, 0int,
{
    match op {
        BuiltIns::Binary(o, x, y) => {
            lemma_const_eval(reg, b, x, m);
            lemma_const_eval(reg, b, y, m);
        },
        BuiltIns::Ternary(x, y, z) => {
            lemma_const_eval(reg, b, x, m);
            lemma_const_eval(reg, b, y, m);
            lemma_const_eval(reg, b, z, m);
        },
        BuiltIns::Not(x) => {
            lemma_const_eval(reg, b, x, m);
        },
        _ => {},
    }
}

proof fn lemma_lookup_folds(reg: Seq<(Seq<char>, UserFunction)>, reg2: Seq<(Seq<char>, UserFunction)>, name: Seq<char>, k: int)
    requires
        table_folds(reg, reg2),
        0 <= k,
    ensures
        crate::semantics::find_fn_from(reg2, name, k) == crate::semantics::find_fn_from(reg, name, k),
    decreases reg.len() - k,
{
    if k < reg.len() {
        assert(reg2[k].0 == reg[k].0);
        lemma_lookup_folds(reg, reg2, name, k + 1);
    }
}

proof fn lemma_eq_expr(
    reg: Seq<(Seq<char>, UserFunction)>,
    reg2: Seq<(Seq<char>, UserFunction)>,
    b: Budget,
    e: Expression,
    e2: Expression,
    m: Machine,
)
    requires
        table_folds(reg, reg2),
        folds_to(e, e2),
    ensures
        eval_expr(reg2, b, e2, m) == eval_expr(reg, b, e, m),
    decreases b.depth, b.steps, 0int, e, 0int,
{
    match e {
        Expression::BuiltInFunction(op) => match e2 {
            Expression::Literal(v) => {
                lemma_const_op_eval(reg, b, *op, m);
            },
            Expression::BuiltInFunction(op2) => {
                lemma_eq_builtin(reg, reg2, b, *op, *op2, m);
            },
            _ => {},
        },
        Expression::UserFunction(n, args) => {
            if let Expression::UserFunction(n2, args2) = e2 {
                lemma_lookup_folds(reg, reg2, n@, 0);
                crate::semantics::lemma_find_fn_bounds(reg, n@, 0);
                if let Some(k) = crate::semantics::find_fn_from(reg, n@, 0) {
                    assert(reg2[k].0 == reg[k].0 && fun_folds(reg[k].1, reg2[k].1));
                    lemma_eq_call(reg, reg2, b, reg[k].1, reg2[k].1, args, args2, m);
                }
            }
        },
        _ => {},
    }
}

proof fn lemma_eq_value(
    reg: Seq<(Seq<char>, UserFunction)>,
    reg2: Seq<(Seq<char>, UserFunction)>,
    b: Budget,
    e: Expression,
    e2: Expression,
    m: Machine,
)
    requires
        table_folds(reg, reg2),
        folds_to(e, e2),
    ensures
        eval_value(reg2, b, e2, m) == eval_value(reg, b, e, m),
    decreases b.depth, b.steps, 0int, e, 1int,
{
    lemma_eq_expr(reg, reg2, b, e, e2, m);
}

proof fn lemma_eq_list(
    reg: Seq<(Seq<char>, UserFunction)>,
    reg2: Seq<(Seq<char>, UserFunction)>,
    b: Budget,
    args: Vec<Expression>,
    args2: Vec<Expression>,
    i: int,
    m: Machine,
)
    requires
        table_folds(reg, reg2),
        args_fold(args, args2),
    ensures
        eval_list(reg2, b, args2, i, m) == eval_list(reg, b, args, i, m),
    decreases b.depth, b.steps, 0int, args, args.len() - i,
{
    if 0 <= i < args.len() {
        assert(folds_to(args[i], args2[i]));
        lemma_eq_value(reg, reg2, b, args[i], args2[i], m);
        let m1 = eval_value(reg, b, args[i], m).0;
        lemma_eq_list(reg, reg2, b, args, args2, i + 1, m1);
    }
}

proof fn lemma_eq_builtin(
    reg: Seq<(Seq<char>, UserFunction)>,
    reg2: Seq<(Seq<char>, UserFunction)>,
    b: Budget,
    op: BuiltIns,
    op2: BuiltIns,
    m: Machine,
)
    requires
        table_folds(reg, reg2),
        builtin_folds(op, op2),
    ensures
        apply_builtin(reg2, b, op2, m) == apply_builtin(reg, b, op, m),
    decreases b.depth, b.steps, 0int, op, 0int,
{
    match op {
        BuiltIns::Binary(o, x, y) => {
            if let BuiltIns::Binary(o2, x2, y2) = op2 {
                lemma_eq_value(reg, reg2, b, x, x2, m);
                lemma_eq_value(reg, reg2, b, y, y2, eval_value(reg, b, x, m).0);
            }
        },
        BuiltIns::Ternary(x, y, z) => {
            if let BuiltIns::Ternary(x2, y2, z2) = op2 {
                lemma_eq_value(reg, reg2, b, x, x2, m);
                let m1 = eval_value(reg, b, x, m).0;
                lemma_eq_value(reg, reg2, b, y, y2, m1);
                let m2 = eval_value(reg, b, y, m1).0;
                lemma_eq_value(reg, reg2, b, z, z2, m2);
            }
        },
        BuiltIns::Not(x) => {
            if let BuiltIns::Not(x2) = op2 {
                lemma_eq_value(reg, reg2, b, x, x2, m);
            }
        },
        BuiltIns::Print(a) => {
            if let BuiltIns::Print(a2) = op2 {
                lemma_eq_list(reg, reg2, b, a, a2, 0, m);
            }
        },
        BuiltIns::Printa(a) => {
            if let BuiltIns::Printa(a2) = op2 {
                lemma_eq_list(reg, reg2, b, a, a2, 0, m);
            }
        },
    }
}

proof fn lemma_eq_call(
    reg: Seq<(Seq<char>, UserFunction)>,
    reg2: Seq<(Seq<char>, UserFunction)>,
    b: Budget,
    f: UserFunction,
    f2: UserFunction,
    args: Vec<Expression>,
    args2: Vec<Expression>,
    m: Machine,
)
    requires
        table_folds(reg, reg2),
        fun_folds(f, f2),
        args_fold(args, args2),
    ensures
        call_result(reg2, b, f2, args2, m) == call_result(reg, b, f, args, m),
    decreases b.depth, b.steps, 0int, args, args.len() + 1,
{
    assert(f2.args@.len() == names_view(f2.args).len());
    assert(f.args@.len() == names_view(f.args).len());
    if f.args.len() == args.len() && b.depth != 0 {
        lemma_eq_list(reg, reg2, b, args, args2, 0, m);
        let (m1, r1) = eval_list(reg, b, args, 0, m);
        if let Ok(vals) = r1 {
            assert(crate::semantics::callee_store(f2, vals) == crate::semantics::callee_store(f, vals));
            lemma_eq_program(
                reg,
                reg2,
                crate::semantics::deeper(b),
                f.code,
                f2.code,
                with_store(m1, crate::semantics::callee_store(f, vals)),
            );
        }
    }
}

proof fn lemma_eq_program(
    reg: Seq<(Seq<char>, UserFunction)>,
    reg2: Seq<(Seq<char>, UserFunction)>,
    b: Budget,
    p: Program,
    q: Program,
    m: Machine,
)
    requires
        table_folds(reg, reg2),
        program_folds(p, q),
    ensures
        run_program(reg2, b, q, m) == run_program(reg, b, p, m),
    decreases b.depth, b.steps, 1int, p, 0int,
{
    lemma_eq_lines(reg, reg2, b, p.program, q.program, 0, with_store(m, m.store.push_frame()));
}

proof fn lemma_eq_lines(
    reg: Seq<(Seq<char>, UserFunction)>,
    reg2: Seq<(Seq<char>, UserFunction)>,
    b: Budget,
    lines: Vec<Line>,
    lines2: Vec<Line>,
    i: int,
    m: Machine,
)
    requires
        table_folds(reg, reg2),
        lines2.len() == lines.len(),
        forall|j: int| 0 <= j < lines.len() ==> line_folds(#[trigger] lines[j], lines2[j]),
    ensures
        run_lines(reg2, b, lines2, i, m) == run_lines(reg, b, lines, i, m),
    decreases b.depth, b.steps, 1int, lines, lines.len() - i,
{
    if 0 <= i < lines.len() {
        assert(line_folds(lines[i], lines2[i]));
        lemma_eq_line(reg, reg2, b, lines[i], lines2[i], m);
        let m1 = run_line(reg, b, lines[i], m).0;
        lemma_eq_lines(reg, reg2, b, lines, lines2, i + 1, m1);
    }
}

proof fn lemma_eq_line(
    reg: Seq<(Seq<char>, UserFunction)>,
    reg2: Seq<(Seq<char>, UserFunction)>,
    b: Budget,
    l: Line,
    l2: Line,
    m: Machine,
)
    requires
        table_folds(reg, reg2),
        line_folds(l, l2),
    ensures
        run_line(reg2, b, l2, m) == run_line(reg, b, l, m),
    decreases b.depth, b.steps, 1int, l, 0int,
{
    match l {
        Line::Assignment(n, e) => {
            if let Line::Assignment(n2, e2) = l2 {
                lemma_eq_value(reg, reg2, b, e, e2, m);
            }
        },
        Line::Expression(e) => {
            if let Line::Expression(e2) = l2 {
                lemma_eq_expr(reg, reg2, b, e, e2, m);
            }
        },
        Line::Construct(c) => {
            if let Line::Construct(c2) = l2 {
                lemma_eq_construct(reg, reg2, b, c, c2, m);
            }
        },
    }
}

proof fn lemma_eq_construct(
    reg: Seq<(Seq<char>, UserFunction)>,
    reg2: Seq<(Seq<char>, UserFunction)>,
    b: Budget,
    c: Construct,
    c2: Construct,
    m: Machine,
)
    requires
        table_folds(reg, reg2),
        construct_folds(c, c2),
    ensures
        apply_construct(reg2, b, c2, m) == apply_construct(reg, b, c, m),
    decreases b.depth, b.steps, 1int, c, 1int,
{
    match c {
        Construct::If(e, p) => {
            if let Construct::If(e2, q) = c2 {
                lemma_eq_value(reg, reg2, b, e, e2, m);
                lemma_eq_program(reg, reg2, b, p, q, eval_value(reg, b, e, m).0);
            }
        },
        Construct::While(_, _) => {
            lemma_eq_while(reg, reg2, b, c, c2, m);
        },
        Construct::For(v, lo, hi, p) => {
            if let Construct::For(v2, lo2, hi2, q) = c2 {
                let m0 = with_store(m, m.store.push_frame());
                lemma_eq_value(reg, reg2, b, lo, lo2, m0);
                let (m1, r1) = eval_value(reg, b, lo, m0);
                lemma_eq_value(reg, reg2, b, hi, hi2, m1);
                let (m2, r2) = eval_value(reg, b, hi, m1);
                if let (Ok(a), Ok(z)) = (r1, r2) {
                    lemma_eq_for(reg, reg2, b, v@, a as int, z as int, p, q, m2);
                }
            }
        },
    }
}

proof fn lemma_eq_while(
    reg: Seq<(Seq<char>, UserFunction)>,
    reg2: Seq<(Seq<char>, UserFunction)>,
    b: Budget,
    c: Construct,
    c2: Construct,
    m: Machine,
)
    requires
        table_folds(reg, reg2),
        construct_folds(c, c2),
    ensures
        run_while(reg2, b, c2, m) == run_while(reg, b, c, m),
    decreases b.depth, b.steps, 1int, c, 0int,
{
    if let Construct::While(e, p) = c {
        if let Construct::While(e2, q) = c2 {
            lemma_eq_value(reg, reg2, b, e, e2, m);
            let (m1, r1) = eval_value(reg, b, e, m);
            if let Ok(v) = r1 {
                if v != 0 && b.steps != 0 {
                    lemma_eq_program(reg, reg2, one_step(b), p, q, m1);
                    let m2 = run_program(reg, one_step(b), p, m1).0;
                    lemma_eq_while(reg, reg2, one_step(b), c, c2, m2);
                }
            }
        }
    }
}

proof fn lemma_eq_for(
    reg: Seq<(Seq<char>, UserFunction)>,
    reg2: Seq<(Seq<char>, UserFunction)>,
    b: Budget,
    var: Seq<char>,
    i: int,
    hi: int,
    p: Program,
    q: Program,
    m: Machine,
)
    requires
        table_folds(reg, reg2),
        program_folds(p, q),
    ensures
        run_for(reg2, b, var, i, hi, q, m) == run_for(reg, b, var, i, hi, p, m),
    decreases b.depth, b.steps, 1int, p, hi - i,
{
    if i < hi {
        let m0 = with_store(m, m.store.assign(var, i as i64));
        lemma_eq_program(reg, reg2, b, p, q, m0);
        let m1 = run_program(reg, b, p, m0).0;
        lemma_eq_for(reg, reg2, b, var, i + 1, hi, p, q, m1);
    }
}

/// Optimising changes nothing a program does: run against the optimised
/// function table, the optimised program prints the same text, ends in the
/// same store and fails with the same error as the unoptimised one.
pub proof fn law_optimise_preserves(
    reg: Seq<(Seq<char>, UserFunction)>,
    reg2: Seq<(Seq<char>, UserFunction)>,
    b: Budget,
    p: Program,
    q: Program,
    m: Machine,
)
    requires
        table_folds(reg, reg2),
        program_folds(p, q),
    ensures
        run_program(reg2, b, q, m) == run_program(reg, b, p, m),
{
    lemma_eq_program(reg, reg2, b, p, q, m);
}

/// The same for a single expression.
pub proof fn law_optimise_expression(
    reg: Seq<(Seq<char>, UserFunction)>,
    reg2: Seq<(Seq<char>, UserFunction)>,
    b: Budget,
    e: Expression,
    e2: Expression,
    m: Machine,
)
    requires
        table_folds(reg, reg2),
        folds_to(e, e2),
    ensures
        eval_expr(reg2, b, e2, m) == eval_expr(reg, b, e, m),
{
    lemma_eq_expr(reg, reg2, b, e, e2, m);
}

/// Printing an expression with `to_text` and parsing the text, against the
/// same registered functions, gives back an expression with the same
/// structure, provided its variable and function names are plain words that
/// are neither literals nor operator symbols, its variables are not function
/// names, and its calls have the registered arity.
pub proof fn law_print_parse(reg: Seq<(Seq<char>, UserFunction)>, e: Expression)
    requires
        crate::printer::printable(crate::user_function::sigs_of(reg), crate::syntax::expr_view(e)),
    ensures
        crate::syntax::parse_expr(
            crate::user_function::sigs_of(reg),
            crate::printer::show(crate::syntax::expr_view(e)),
        ) == Ok::<crate::syntax::SExpr, crate::error::ParseErrorKind>(crate::syntax::expr_view(e)),
{
    crate::printer::lemma_round_trip(crate::user_function::sigs_of(reg), crate::syntax::expr_view(e));
}

/// No statement of `p`, at any depth, assigns `x` or uses it as a loop variable.
pub open spec fn program_leaves(p: Program, x: Seq<char>) -> bool
    decreases p, 1int,
{
    forall|j: int| 0 <= j < p.program.len() ==> line_leaves(#[trigger] p.program[j], x)
}

pub open spec fn line_leaves(l: Line, x: Seq<char>) -> bool
    decreases l, 1int,
{
    match l {
        Line::Assignment(n, _) => n@ != x,
        Line::Expression(_) => true,
        Line::Construct(c) => match c {
            Construct::If(_, p) => program_leaves(p, x),
            Construct::While(_, p) => program_leaves(p, x),
            Construct::For(v, _, _, p) => v@ != x && program_leaves(p, x),
        },
    }
}

/// Binding `q` holds `x`.
pub open spec fn holds_at(s: StoreModel, q: int, x: Seq<char>) -> bool {
    &&& 0 <= q < s.vars.len()
    &&& s.vars[q] == x
    &&& s.vals.len() == s.vars.len()
}

proof fn lemma_assign_other(s: StoreModel, q: int, x: Seq<char>, name: Seq<char>, v: i64)
    requires
        holds_at(s, q, x),
        name != x,
    ensures
        holds_at(s.assign(name, v), q, x),
        s.assign(name, v).vals[q] == s.vals[q],
{
    crate::data_store::lemma_find_from_bounds(s.vars, name, 0);
}

proof fn lemma_leaves_program(reg: Seq<(Seq<char>, UserFunction)>, b: Budget, p: Program, m: Machine, q: int, x: Seq<char>)
    requires
        holds_at(m.store, q, x),
        program_leaves(p, x),
    ensures
        run_program(reg, b, p, m).1 is Ok ==> run_program(reg, b, p, m).0.store.vals[q] == m.store.vals[q],
    decreases b.depth, b.steps, 1int, p, 0int,
{
    let m1 = with_store(m, m.store.push_frame());
    lemma_leaves_lines(reg, b, p.program, 0, m1, q, x);
    lemma_run_lines_scope(reg, b, p.program, 0, m1);
}

proof fn lemma_leaves_lines(
    reg: Seq<(Seq<char>, UserFunction)>,
    b: Budget,
    lines: Vec<Line>,
    i: int,
    m: Machine,
    q: int,
    x: Seq<char>,
)
    requires
        holds_at(m.store, q, x),
        forall|j: int| 0 <= j < lines.len() ==> line_leaves(#[trigger] lines[j], x),
    ensures
        run_lines(reg, b, lines, i, m).1 is Ok ==> run_lines(reg, b, lines, i, m).0.store.vals[q] == m.store.vals[q],
    decreases b.depth, b.steps, 1int, lines, lines.len() - i,
{
    if 0 <= i < lines.len() {
        assert(line_leaves(lines[i], x));
        lemma_leaves_line(reg, b, lines[i], m, q, x);
        lemma_run_line_scope(reg, b, lines[i], m);
        let (m1, r1) = run_line(reg, b, lines[i], m);
        if r1 is Ok {
            assert(m1.store.vars[q] == m1.store.vars.take(m.store.vars.len() as int)[q]);
            lemma_leaves_lines(reg, b, lines, i + 1, m1, q, x);
        }
    }
}

proof fn lemma_leaves_line(reg: Seq<(Seq<char>, UserFunction)>, b: Budget, line: Line, m: Machine, q: int, x: Seq<char>)
    requires
        holds_at(m.store, q, x),
        line_leaves(line, x),
    ensures
        run_line(reg, b, line, m).1 is Ok ==> run_line(reg, b, line, m).0.store.vals[q] == m.store.vals[q],
    decreases b.depth, b.steps, 1int, line, 0int,
{
    match line {
        Line::Assignment(name, e) => {
            lemma_eval_value_store(reg, b, e, m);
            let (m1, r1) = eval_value(reg, b, e, m);
            if let Ok(v) = r1 {
                lemma_assign_other(m1.store, q, x, name@, v);
            }
        },
        Line::Expression(e) => {
            lemma_eval_expr_store(reg, b, e, m);
        },
        Line::Construct(c) => {
            lemma_leaves_construct(reg, b, c, m, q, x);
        },
    }
}

proof fn lemma_leaves_construct(reg: Seq<(Seq<char>, UserFunction)>, b: Budget, c: Construct, m: Machine, q: int, x: Seq<char>)
    requires
        holds_at(m.store, q, x),
        line_leaves(Line::Construct(c), x),
    ensures
        apply_construct(reg, b, c, m).1 is Ok ==> apply_construct(reg, b, c, m).0.store.vals[q] == m.store.vals[q],
    decreases b.depth, b.steps, 1int, c, 1int,
{
    match c {
        Construct::If(cond, body) => {
            lemma_eval_value_store(reg, b, cond, m);
            let m1 = eval_value(reg, b, cond, m).0;
            lemma_leaves_program(reg, b, body, m1, q, x);
        },
        Construct::While(_, _) => {
            lemma_leaves_while(reg, b, c, m, q, x);
        },
        Construct::For(var, start, end, body) => {
            let m0 = with_store(m, m.store.push_frame());
            lemma_eval_value_store(reg, b, start, m0);
            let (m1, r1) = eval_value(reg, b, start, m0);
            lemma_eval_value_store(reg, b, end, m1);
            let (m2, r2) = eval_value(reg, b, end, m1);
            if let (Ok(lo), Ok(hi)) = (r1, r2) {
                lemma_leaves_for(reg, b, var@, lo as int, hi as int, body, m2, q, x);
                lemma_run_for_scope(reg, b, var@, lo as int, hi as int, body, m2);
            }
        },
    }
}

proof fn lemma_leaves_while(reg: Seq<(Seq<char>, UserFunction)>, b: Budget, c: Construct, m: Machine, q: int, x: Seq<char>)
    requires
        holds_at(m.store, q, x),
        line_leaves(Line::Construct(c), x),
    ensures
        run_while(reg, b, c, m).1 is Ok ==> run_while(reg, b, c, m).0.store.vals[q] == m.store.vals[q],
    decreases b.depth, b.steps, 1int, c, 0int,
{
    if let Construct::While(cond, body) = c {
        lemma_eval_value_store(reg, b, cond, m);
        let (m1, r1) = eval_value(reg, b, cond, m);
        if let Ok(v) = r1 {
            if v != 0 && b.steps != 0 {
                lemma_leaves_program(reg, one_step(b), body, m1, q, x);
                lemma_run_program_scope(reg, one_step(b), body, m1);
                let (m2, r2) = run_program(reg, one_step(b), body, m1);
                if r2 is Ok {
                    lemma_leaves_while(reg, one_step(b), c, m2, q, x);
                }
            }
        }
    }
}

proof fn lemma_leaves_for(
    reg: Seq<(Seq<char>, UserFunction)>,
    b: Budget,
    var: Seq<char>,
    i: int,
    hi: int,
    body: Program,
    m: Machine,
    q: int,
    x: Seq<char>,
)
    requires
        holds_at(m.store, q, x),
        var != x,
        program_leaves(body, x),
    ensures
        run_for(reg, b, var, i, hi, body, m).1 is Ok ==> run_for(reg, b, var, i, hi, body, m).0.store.vals[q]
            == m.store.vals[q],
    decreases b.depth, b.steps, 1int, body, hi - i,
{
    if i < hi {
        let s1 = m.store.assign(var, i as i64);
        lemma_assign_other(m.store, q, x, var, i as i64);
        lemma_leaves_program(reg, b, body, with_store(m, s1), q, x);
        lemma_run_program_scope(reg, b, body, with_store(m, s1));
        let (m1, r1) = run_program(reg, b, body, with_store(m, s1));
        if r1 is Ok {
            lemma_leaves_for(reg, b, var, i + 1, hi, body, m1, q, x);
        }
    }
}

/// A function whose body nowhere assigns `res` (nor loops over it), and that
/// has no parameter of that name, returns 0 when its body succeeds.
pub proof fn law_res_defaults_to_zero(
    reg: Seq<(Seq<char>, UserFunction)>,
    b: Budget,
    f: UserFunction,
    args: Vec<Expression>,
    m: Machine,
)
    requires
        program_leaves(f.code, crate::semantics::res_name()),
        forall|j: int| 0 <= j < f.args.len() ==> (#[trigger] f.args@[j])@ != crate::semantics::res_name(),
    ensures
        call_result(reg, b, f, args, m).1 is Ok ==> call_result(reg, b, f, args, m).1 == Ok::<
            Option<i64>,
            EvalError,
        >(Some(0)),
{
    if f.args.len() == args.len() && b.depth != 0 {
        let (m1, r1) = eval_list(reg, b, args, 0, m);
        if let Ok(vals) = r1 {
            let callee = crate::semantics::callee_store(f, vals);
            lemma_callee_store(f, vals);
            let b1 = crate::semantics::deeper(b);
            let mc = with_store(m1, callee);
            lemma_leaves_program(reg, b1, f.code, mc, 0, crate::semantics::res_name());
            lemma_run_program_scope(reg, b1, f.code, mc);
            if run_program(reg, b1, f.code, mc).1 is Ok {
                let s = run_program(reg, b1, f.code, mc).0.store;
                assert(s.vars == callee.vars);
                assert(s.position(crate::semantics::res_name()) == Some(0int));
            }
        }
    }
}

} // verus!
