//! What the optimising pass may do: fold an operator call whose operands are
//! all constant into the literal it evaluates to, and otherwise keep the shape
//! of the tree, optimising below.
use vstd::prelude::*;
use crate::assembly::names_view;
use crate::built_in_functions::BuiltIns;
use crate::constructs::Construct;
use crate::expression::Expression;
use crate::program::{Line, Program};
use crate::semantics::binary_result;
use crate::user_function::UserFunction;

verus! {

/// The value of an expression built from literals and pure operators alone.
pub open spec fn const_value(e: Expression) -> Option<i64>
    decreases e, 0int,
{
    match e {
        Expression::Literal(v) => Some(v),
        Expression::BuiltInFunction(op) => const_op(*op),
        _ => None,
    }
}

pub open spec fn const_op(op: BuiltIns) -> Option<i64>
    decreases op, 0int,
{
    match op {
        BuiltIns::Binary(o, x, y) => match (const_value(x), const_value(y)) {
            (Some(a), Some(c)) => match binary_result(o, a, c) {
                Ok(w) => Some(w),
                Err(_) => None,
            },
            _ => None,
        },
        BuiltIns::Ternary(x, y, z) => match (const_value(x), const_value(y), const_value(z)) {
            (Some(a), Some(u), Some(v)) => Some(if a != 0 { u } else { v }),
            _ => None,
        },
        BuiltIns::Not(x) => match const_value(x) {
            Some(a) => Some(if a == 0 { 1 } else { 0 }),
            None => None,
        },
        _ => None,
    }
}

/// `r` is an optimised form of `e`.
pub open spec fn folds_to(e: Expression, r: Expression) -> bool
    decreases e, 1int,
{
    match e {
        Expression::Literal(_) => r == e,
        Expression::Variable(n) => r matches Expression::Variable(n2) && n2@ == n@,
        Expression::BuiltInFunction(op) => match r {
            Expression::Literal(v) => const_op(*op) == Some(v),
            Expression::BuiltInFunction(op2) => builtin_folds(*op, *op2),
            _ => false,
        },
        Expression::UserFunction(n, args) => match r {
            Expression::UserFunction(n2, args2) => n2@ == n@ && args_fold(args, args2),
            _ => false,
        },
    }
}

pub open spec fn builtin_folds(op: BuiltIns, op2: BuiltIns) -> bool
    decreases op, 1int,
{
    match op {
        BuiltIns::Binary(o, x, y) => op2 matches BuiltIns::Binary(o2, x2, y2) && o2 == o && folds_to(x, x2)
            && folds_to(y, y2),
        BuiltIns::Ternary(x, y, z) => op2 matches BuiltIns::Ternary(x2, y2, z2) && folds_to(x, x2)
            && folds_to(y, y2) && folds_to(z, z2),
        BuiltIns::Not(x) => op2 matches BuiltIns::Not(x2) && folds_to(x, x2),
        BuiltIns::Print(a) => op2 matches BuiltIns::Print(a2) && args_fold(a, a2),
        BuiltIns::Printa(a) => op2 matches BuiltIns::Printa(a2) && args_fold(a, a2),
    }
}

pub open spec fn args_fold(a: Vec<Expression>, a2: Vec<Expression>) -> bool
    decreases a, 1int,
{
    &&& a2.len() == a.len()
    &&& forall|i: int| 0 <= i < a.len() ==> folds_to(#[trigger] a[i], a2[i])
}

pub open spec fn program_folds(p: Program, q: Program) -> bool
    decreases p, 1int,
{
    &&& q.program.len() == p.program.len()
    &&& forall|i: int| 0 <= i < p.program.len() ==> line_folds(#[trigger] p.program[i], q.program[i])
}

pub open spec fn line_folds(l: Line, l2: Line) -> bool
    decreases l, 1int,
{
    match l {
        Line::Assignment(n, e) => l2 matches Line::Assignment(n2, e2) && n2@ == n@ && folds_to(e, e2),
        Line::Expression(e) => l2 matches Line::Expression(e2) && folds_to(e, e2),
        Line::Construct(c) => l2 matches Line::Construct(c2) && construct_folds(c, c2),
    }
}

pub open spec fn construct_folds(c: Construct, c2: Construct) -> bool
    decreases c, 1int,
{
    match c {
        Construct::If(e, p) => c2 matches Construct::If(e2, q) && folds_to(e, e2) && program_folds(p, q),
        Construct::While(e, p) => c2 matches Construct::While(e2, q) && folds_to(e, e2) && program_folds(p, q),
        Construct::For(v, a, b, p) => c2 matches Construct::For(v2, a2, b2, q) && v2@ == v@ && folds_to(a, a2)
            && folds_to(b, b2) && program_folds(p, q),
    }
}

pub open spec fn fun_folds(f: UserFunction, g: UserFunction) -> bool {
    names_view(g.args) == names_view(f.args) && program_folds(f.code, g.code)
}

/// Every function of `reg2` is the optimised form of the one at the same index of `reg`.
pub open spec fn table_folds(reg: Seq<(Seq<char>, UserFunction)>, reg2: Seq<(Seq<char>, UserFunction)>) -> bool {
    &&& reg2.len() == reg.len()
    &&& forall|k: int| 0 <= k < reg.len() ==> (#[trigger] reg2[k]).0 == reg[k].0 && fun_folds(reg[k].1, reg2[k].1)
}

pub proof fn lemma_fold_const(x: Expression, x2: Expression)
    requires
        folds_to(x, x2),
        const_value(x2) is Some,
    ensures
        const_value(x) == const_value(x2),
    decreases x, 0int,
{
    if let Expression::BuiltInFunction(op) = x {
        if let Expression::BuiltInFunction(op2) = x2 {
            lemma_fold_const_op(*op, *op2);
        }
    }
}

pub proof fn lemma_fold_const_op(op: BuiltIns, op2: BuiltIns)
    requires
        builtin_folds(op, op2),
        const_op(op2) is Some,
    ensures
        const_op(op) == const_op(op2),
    decreases op, 0int,
{
    match op {
        BuiltIns::Binary(o, x, y) => {
            if let BuiltIns::Binary(o2, x2, y2) = op2 {
                lemma_fold_const(x, x2);
                lemma_fold_const(y, y2);
            }
        },
        BuiltIns::Ternary(x, y, z) => {
            if let BuiltIns::Ternary(x2, y2, z2) = op2 {
                lemma_fold_const(x, x2);
                lemma_fold_const(y, y2);
                lemma_fold_const(z, z2);
            }
        },
        BuiltIns::Not(x) => {
            if let BuiltIns::Not(x2) = op2 {
                lemma_fold_const(x, x2);
            }
        },
        _ => {},
    }
}

} // verus!
