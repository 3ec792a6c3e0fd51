//! The fixed operators of the language.
use vstd::prelude::*;
use crate::data_store::DataStore;
use crate::error::EvalError;
use crate::expression::{evaluate_list, evaluate_value, optimise_list, texts_of, Expression};
use crate::printer::{op_word, show, write_call};
use crate::semantics::{apply_builtin, binary_result, Budget, Machine};
use crate::text::{chars_line, code_point_char, is_scalar, joined, print_line, push_decimal};
use crate::error::ParseErrorKind;
use crate::folding::{builtin_folds, const_op};
use crate::syntax::{
    builtin_view, expr_view, lemma_list_view_all, lemma_split_scan_short, list_view,
    operator_of, parse_operator, OpKind, SExpr,
};
use crate::user_function::{sigs_of, FunctionTable};

verus! {

/// The two-operand operators.
#[derive(Debug, Clone, Copy, PartialEq, Eq, Structural)]
pub enum Operator {
    Add,
    Sub,
    Mul,
    Div,
    Mod,
    Eq,
    Neq,
    Lt,
    Gt,
    Le,
    Ge,
}

/// A call of a built-in operator with its operand expressions.
pub enum BuiltIns {
    Binary(Operator, Expression, Expression),
    Ternary(Expression, Expression, Expression),
    Not(Expression),
    Print(Vec<Expression>),
    Printa(Vec<Expression>),
}

/// The operator a symbol names, if any.
pub fn operator_kind(w: &Vec<char>) -> (r: Option<OpKind>)
    ensures
        r == operator_of(w@),
{
    let n = w.len();
    if n == 1 {
        let c = w[0];
        if c == '+' {
            Some(OpKind::Bin(Operator::Add))
        } else if c == '-' {
            Some(OpKind::Bin(Operator::Sub))
        } else if c == '*' {
            Some(OpKind::Bin(Operator::Mul))
        } else if c == '/' {
            Some(OpKind::Bin(Operator::Div))
        } else if c == '%' {
            Some(OpKind::Bin(Operator::Mod))
        } else if c == '<' {
            Some(OpKind::Bin(Operator::Lt))
        } else if c == '>' {
            Some(OpKind::Bin(Operator::Gt))
        } else if c == '?' {
            Some(OpKind::Ternary)
        } else if c == '!' {
            Some(OpKind::Not)
        } else {
            None
        }
    } else if n == 2 && w[1] == '=' {
        let c = w[0];
        if c == '=' {
            Some(OpKind::Bin(Operator::Eq))
        } else if c == '!' {
            Some(OpKind::Bin(Operator::Neq))
        } else if c == '<' {
            Some(OpKind::Bin(Operator::Le))
        } else if c == '>' {
            Some(OpKind::Bin(Operator::Ge))
        } else {
            None
        }
    } else if (n == 5 || n == 6) && w[0] == 'p' && w[1] == 'r' && w[2] == 'i' && w[3] == 'n' && w[4]
        == 't' {
        if n == 5 {
            Some(OpKind::Print)
        } else if w[5] == 'a' {
            Some(OpKind::Printa)
        } else {
            None
        }
    } else {
        None
    }
}

/// What a two-operand operator yields on two numbers.
pub fn binary(op: Operator, a: i64, b: i64) -> (r: Result<i64, EvalError>)
    ensures
        r == binary_result(op, a, b),
{
    match op {
        Operator::Add => match a.checked_add(b) {
            Some(v) => Ok(v),
            None => Err(EvalError::Overflow),
        },
        Operator::Sub => match a.checked_sub(b) {
            Some(v) => Ok(v),
            None => Err(EvalError::Overflow),
        },
        Operator::Mul => match a.checked_mul(b) {
            Some(v) => Ok(v),
            None => Err(EvalError::Overflow),
        },
        Operator::Div => if b == 0 {
            Err(EvalError::DivisionByZero)
        } else {
            match a.checked_div(b) {
                Some(v) => Ok(v),
                None => Err(EvalError::Overflow),
            }
        },
        Operator::Mod => if b == 0 {
            Err(EvalError::DivisionByZero)
        } else {
            match a.checked_rem(b) {
                Some(v) => Ok(v),
                None => Err(EvalError::Overflow),
            }
        },
        Operator::Eq => Ok(if a == b { 1 } else { 0 }),
        Operator::Neq => Ok(if a != b { 1 } else { 0 }),
        Operator::Lt => Ok(if a < b { 1 } else { 0 }),
        Operator::Gt => Ok(if a > b { 1 } else { 0 }),
        Operator::Le => Ok(if a <= b { 1 } else { 0 }),
        Operator::Ge => Ok(if a >= b { 1 } else { 0 }),
    }
}

/// Appends the line that `print` writes for `vals`.
fn write_numbers(out: &mut Vec<char>, vals: &Vec<i64>)
    ensures
        final(out)@ == old(out)@ + print_line(vals@),
{
    let mut i: usize = 0;
    while i < vals.len()
        invariant
            i <= vals.len(),
            out@ == old(out)@ + joined(vals@, i as int),
        decreases vals.len() - i,
    {
        if i > 0 {
            out.push(' ');
        }
        push_decimal(out, vals[i]);
        proof {
            if i == 0 {
                assert(joined(vals@, 1) == crate::text::decimal(vals@[0] as int));
                assert(joined(vals@, 0) =~= Seq::<char>::empty());
            }
        }
        assert(out@ =~= old(out)@ + joined(vals@, i + 1));
        i = i + 1;
    }
    out.push('\n');
    assert(out@ =~= old(out)@ + print_line(vals@));
}

/// Appends the line that `printa` writes for `vals`, or fails, writing nothing,
/// when one of them is no Unicode scalar value.
fn write_chars(out: &mut Vec<char>, vals: &Vec<i64>) -> (r: Result<(), EvalError>)
    ensures
        (forall|k: int| 0 <= k < vals@.len() ==> is_scalar(#[trigger] vals@[k] as int)) ==> r is Ok
            && final(out)@ == old(out)@ + chars_line(vals@),
        !(forall|k: int| 0 <= k < vals@.len() ==> is_scalar(#[trigger] vals@[k] as int)) ==> r
            == Err::<(), EvalError>(EvalError::InvalidChar) && final(out)@ == old(out)@,
{
    let mut text: Vec<char> = Vec::new();
    let mut i: usize = 0;
    while i < vals.len()
        invariant
            i <= vals.len(),
            text@ == vals@.take(i as int).map_values(|v: i64| v as char),
            forall|k: int| 0 <= k < i ==> is_scalar(#[trigger] vals@[k] as int),
        decreases vals.len() - i,
    {
        match code_point_char(vals[i]) {
            None => {
                return Err(EvalError::InvalidChar);
            },
            Some(c) => {
                text.push(c);
            },
        }
        assert(vals@.take(i + 1) =~= vals@.take(i as int).push(vals@[i as int]));
        assert(text@ =~= vals@.take(i + 1).map_values(|v: i64| v as char));
        i = i + 1;
    }
    assert(vals@.take(vals@.len() as int) =~= vals@);
    let ghost start = out@;
    let mut j: usize = 0;
    while j < text.len()
        invariant
            j <= text.len(),
            out@ == start + text@.take(j as int),
        decreases text.len() - j,
    {
        out.push(text[j]);
        assert(text@.take(j + 1) =~= text@.take(j as int).push(text@[j as int]));
        j = j + 1;
    }
    out.push('\n');
    assert(text@.take(text@.len() as int) =~= text@);
    assert(out@ =~= old(out)@ + chars_line(vals@));
    Ok(())
}

impl BuiltIns {
    /// The call written in prefix form.
    pub fn to_text(&self) -> (r: Vec<char>)
        ensures
            r@ == show(builtin_view(*self)),
        decreases self, 0int,
    {
        let (k, parts) = match self {
            BuiltIns::Binary(o, x, y) => {
                let mut parts: Vec<Vec<char>> = Vec::new();
                parts.push(x.to_text());
                parts.push(y.to_text());
                (OpKind::Bin(*o), parts)
            },
            BuiltIns::Ternary(x, y, z) => {
                let mut parts: Vec<Vec<char>> = Vec::new();
                parts.push(x.to_text());
                parts.push(y.to_text());
                parts.push(z.to_text());
                (OpKind::Ternary, parts)
            },
            BuiltIns::Not(x) => {
                let mut parts: Vec<Vec<char>> = Vec::new();
                parts.push(x.to_text());
                (OpKind::Not, parts)
            },
            BuiltIns::Print(args) => (OpKind::Print, texts_of(args)),
            BuiltIns::Printa(args) => (OpKind::Printa, texts_of(args)),
        };
        let word = op_word(k);
        let r = write_call(&word, &parts);
        proof {
            match self {
                BuiltIns::Binary(o, x, y) => {
                    assert(parts@.map_values(|p: Vec<char>| p@) =~= seq![show(expr_view(*x)), show(expr_view(*y))]);
                },
                BuiltIns::Ternary(x, y, z) => {
                    assert(parts@.map_values(|p: Vec<char>| p@) =~= seq![
                        show(expr_view(*x)),
                        show(expr_view(*y)),
                        show(expr_view(*z)),
                    ]);
                },
                BuiltIns::Not(x) => {
                    assert(parts@.map_values(|p: Vec<char>| p@) =~= seq![show(expr_view(*x))]);
                },
                _ => {},
            }
        }
        r
    }

    /// The operator with each operand optimised.
    pub fn optimise(&self) -> (r: BuiltIns)
        ensures
            builtin_folds(*self, r),
        decreases self, 0int,
    {
        match self {
            BuiltIns::Binary(o, a, b) => BuiltIns::Binary(*o, a.optimise(), b.optimise()),
            BuiltIns::Ternary(a, b, c) => BuiltIns::Ternary(a.optimise(), b.optimise(), c.optimise()),
            BuiltIns::Not(a) => BuiltIns::Not(a.optimise()),
            BuiltIns::Print(args) => BuiltIns::Print(optimise_list(args)),
            BuiltIns::Printa(args) => BuiltIns::Printa(optimise_list(args)),
        }
    }

    /// The value of the call when its operands are literals and it yields a number.
    pub fn constant(&self) -> (r: Option<i64>)
        ensures
            r matches Some(v) ==> const_op(*self) == Some(v),
    {
        match self {
            BuiltIns::Binary(o, Expression::Literal(a), Expression::Literal(b)) => match binary(*o, *a, *b) {
                Ok(w) => Some(w),
                Err(_) => None,
            },
            BuiltIns::Ternary(Expression::Literal(a), Expression::Literal(u), Expression::Literal(v)) => {
                Some(if *a != 0 { *u } else { *v })
            },
            BuiltIns::Not(Expression::Literal(a)) => Some(if *a == 0 { 1 } else { 0 }),
            _ => None,
        }
    }

    /// Parses an operator call from its head word and the text of its operands:
    /// `None` when `head` names no operator, else the call or why it is malformed.
    pub fn get_function(head: &Vec<char>, rest: &Vec<char>, user_fns: &FunctionTable) -> (r: Option<
        Result<BuiltIns, ParseErrorKind>,
    >)
        ensures
            match operator_of(head@) {
                None => r is None,
                Some(k) => match r {
                    None => false,
                    Some(Ok(b)) => parse_operator(sigs_of(user_fns@), k, rest@) == Ok::<
                        SExpr,
                        ParseErrorKind,
                    >(builtin_view(b)),
                    Some(Err(e)) => parse_operator(sigs_of(user_fns@), k, rest@) == Err::<
                        SExpr,
                        ParseErrorKind,
                    >(e),
                },
            },
        decreases rest@.len(), 2int, 0int,
    {
        let k = match operator_kind(head) {
            None => {
                return None;
            },
            Some(k) => k,
        };
        proof {
            lemma_split_scan_short(rest@, 0, 0, 0);
        }
        let mut args = match Expression::evaluate_arguments(rest, user_fns) {
            Err(e) => {
                return Some(Err(e));
            },
            Ok(args) => args,
        };
        proof {
            lemma_list_view_all(args);
        }
        let ghost views = list_view(args, 0);
        match k {
            OpKind::Bin(o) => {
                if args.len() != 2 {
                    return Some(Err(ParseErrorKind::Arity));
                }
                let b = args.pop().unwrap();
                let a = args.pop().unwrap();
                assert(views[0] == expr_view(a));
                assert(views[1] == expr_view(b));
                Some(Ok(BuiltIns::Binary(o, a, b)))
            },
            OpKind::Ternary => {
                if args.len() != 3 {
                    return Some(Err(ParseErrorKind::Arity));
                }
                let c = args.pop().unwrap();
                let b = args.pop().unwrap();
                let a = args.pop().unwrap();
                assert(views[0] == expr_view(a));
                assert(views[1] == expr_view(b));
                assert(views[2] == expr_view(c));
                Some(Ok(BuiltIns::Ternary(a, b, c)))
            },
            OpKind::Not => {
                if args.len() != 1 {
                    return Some(Err(ParseErrorKind::Arity));
                }
                let a = args.pop().unwrap();
                assert(views[0] == expr_view(a));
                Some(Ok(BuiltIns::Not(a)))
            },
            OpKind::Print => Some(Ok(BuiltIns::Print(args))),
            OpKind::Printa => Some(Ok(BuiltIns::Printa(args))),
        }
    }

    /// Applies the operator: every operand is evaluated, left to right, first.
    pub fn apply(
        &self,
        data_store: &mut DataStore,
        out: &mut Vec<char>,
        user_fns: &FunctionTable,
        budget: Budget,
    ) -> (r: Result<Option<i64>, EvalError>)
        requires
            old(data_store).wf(),
        ensures
            final(data_store)@ == old(data_store)@,
            (Machine { store: final(data_store)@, out: final(out)@ }, r) == apply_builtin(
                user_fns@,
                budget,
                *self,
                Machine { store: old(data_store)@, out: old(out)@ },
            ),
        decreases budget.depth, budget.steps, 0int, self, 0int,
    {
        match self {
            BuiltIns::Binary(o, x, y) => {
                let u = match evaluate_value(x, data_store, out, user_fns, budget) {
                    Err(e) => {
                        return Err(e);
                    },
                    Ok(u) => u,
                };
                let v = match evaluate_value(y, data_store, out, user_fns, budget) {
                    Err(e) => {
                        return Err(e);
                    },
                    Ok(v) => v,
                };
                match binary(*o, u, v) {
                    Err(e) => Err(e),
                    Ok(w) => Ok(Some(w)),
                }
            },
            BuiltIns::Ternary(x, y, z) => {
                let c = match evaluate_value(x, data_store, out, user_fns, budget) {
                    Err(e) => {
                        return Err(e);
                    },
                    Ok(c) => c,
                };
                let u = match evaluate_value(y, data_store, out, user_fns, budget) {
                    Err(e) => {
                        return Err(e);
                    },
                    Ok(u) => u,
                };
                let v = match evaluate_value(z, data_store, out, user_fns, budget) {
                    Err(e) => {
                        return Err(e);
                    },
                    Ok(v) => v,
                };
                Ok(Some(if c != 0 { u } else { v }))
            },
            BuiltIns::Not(x) => match evaluate_value(x, data_store, out, user_fns, budget) {
                Err(e) => Err(e),
                Ok(u) => Ok(Some(if u == 0 { 1 } else { 0 })),
            },
            BuiltIns::Print(args) => match evaluate_list(args, data_store, out, user_fns, budget) {
                Err(e) => Err(e),
                Ok(vals) => {
                    write_numbers(out, &vals);
                    Ok(None)
                },
            },
            BuiltIns::Printa(args) => match evaluate_list(args, data_store, out, user_fns, budget) {
                Err(e) => Err(e),
                Ok(vals) => match write_chars(out, &vals) {
                    Err(e) => Err(e),
                    Ok(_) => Ok(None),
                },
            },
        }
    }
}

} // verus!
