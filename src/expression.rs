//! Expressions: literals, variables, operator calls and user-function calls.
use vstd::prelude::*;
use crate::built_in_functions::BuiltIns;
use crate::data_store::DataStore;
use crate::error::EvalError;
use crate::semantics::{eval_expr, eval_list, eval_value, prepend, Budget, Machine};
use crate::error::ParseErrorKind;
use crate::folding::{args_fold, folds_to, lemma_fold_const_op};
use crate::syntax::{
    expr_view, find_sig, head_of, lemma_first_space, lemma_list_view_all, lemma_rest_shorter,
    lemma_split_scan_short, list_view, parse_expr, parse_segs, rest_of, split_args, split_scan,
    strip_brackets, SExpr,
};
use crate::printer::{lemma_show_all, show, show_all, write_call};
use crate::text::{chars_of, first_space_index, parse_literal, push_decimal, slice, string_of, trim_chars};
use crate::user_function::{lemma_find_sig, sigs_of, FunctionTable};

verus! {

/// A parsed prefix expression.
pub enum Expression {
    Literal(i64),
    Variable(String),
    BuiltInFunction(Box<BuiltIns>),
    UserFunction(String, Vec<Expression>),
}

/// Puts the views of `pre` in front of the operands of a successful parse.
pub open spec fn prefixed(pre: Seq<SExpr>, r: Result<Seq<SExpr>, ParseErrorKind>) -> Result<Seq<SExpr>, ParseErrorKind> {
    match r {
        Err(e) => Err(e),
        Ok(vs) => Ok(pre + vs),
    }
}

/// The index of the registered function that `line` names.
pub fn is_user_function_call(line: &Vec<char>, user_fns: &FunctionTable) -> (r: Option<usize>)
    ensures
        match r {
            Some(k) => k < user_fns@.len() && find_sig(sigs_of(user_fns@), line@, 0) == Some(k as int),
            None => find_sig(sigs_of(user_fns@), line@, 0) is None,
        },
{
    let name = string_of(line);
    proof {
        lemma_find_sig(user_fns@, line@, 0);
    }
    user_fns.find(&name)
}

/// The text of each expression.
pub fn texts_of(args: &Vec<Expression>) -> (r: Vec<Vec<char>>)
    ensures
        r@.map_values(|p: Vec<char>| p@) == show_all(list_view(*args, 0), 0),
    decreases args, 0int,
{
    let mut r: Vec<Vec<char>> = Vec::new();
    let mut i: usize = 0;
    while i < args.len()
        invariant
            i <= args.len(),
            r@.map_values(|p: Vec<char>| p@) == args@.take(i as int).map_values(|e: Expression| show(expr_view(e))),
        decreases args.len() - i,
    {
        let t = args[i].to_text();
        let ghost before = r@.map_values(|p: Vec<char>| p@);
        r.push(t);
        assert(r@.map_values(|p: Vec<char>| p@) =~= before.push(t@));
        assert(args@.take(i + 1).map_values(|e: Expression| show(expr_view(e))) =~= args@.take(i as int).map_values(
            |e: Expression| show(expr_view(e)),
        ).push(show(expr_view(args@[i as int]))));
        i = i + 1;
    }
    proof {
        lemma_list_view_all(*args);
        lemma_show_all(list_view(*args, 0), 0);
        assert(list_view(*args, 0).skip(0) =~= list_view(*args, 0));
        assert(args@.take(args.len() as int) =~= args@);
        assert(r@.map_values(|p: Vec<char>| p@) =~= show_all(list_view(*args, 0), 0));
    }
    r
}

/// The optimised form of each expression.
pub fn optimise_list(args: &Vec<Expression>) -> (r: Vec<Expression>)
    ensures
        args_fold(*args, r),
    decreases args, 0int,
{
    let mut r: Vec<Expression> = Vec::new();
    let mut i: usize = 0;
    while i < args.len()
        invariant
            i <= args.len(),
            r.len() == i,
            forall|j: int| 0 <= j < i ==> folds_to(#[trigger] args@[j], r@[j]),
        decreases args.len() - i,
    {
        r.push(args[i].optimise());
        i = i + 1;
    }
    r
}

impl Expression {
    /// The expression written in prefix form; it parses back to an equal
    /// expression (see `printer::lemma_round_trip`).
    pub fn to_text(&self) -> (r: Vec<char>)
        ensures
            r@ == show(expr_view(*self)),
        decreases self, 0int,
    {
        match self {
            Expression::Literal(v) => {
                let mut r: Vec<char> = Vec::new();
                push_decimal(&mut r, *v);
                assert(r@ =~= show(expr_view(*self)));
                r
            },
            Expression::Variable(n) => chars_of(n.as_str()),
            Expression::BuiltInFunction(op) => op.to_text(),
            Expression::UserFunction(n, args) => {
                let name = chars_of(n.as_str());
                let parts = texts_of(args);
                write_call(&name, &parts)
            },
        }
    }

    /// Folds every operator call whose operands are all constant into its
    /// value; the rest keeps its shape.
    pub fn optimise(&self) -> (r: Expression)
        ensures
            folds_to(*self, r),
        decreases self, 0int,
    {
        match self {
            Expression::Literal(v) => Expression::Literal(*v),
            Expression::Variable(n) => Expression::Variable(n.clone()),
            Expression::BuiltInFunction(op) => {
                let op2 = op.optimise();
                match op2.constant() {
                    Some(v) => {
                        proof {
                            lemma_fold_const_op(**op, op2);
                        }
                        Expression::Literal(v)
                    },
                    None => Expression::BuiltInFunction(Box::new(op2)),
                }
            },
            Expression::UserFunction(n, args) => Expression::UserFunction(n.clone(), optimise_list(args)),
        }
    }

    /// The trimmed text, with one pair of enclosing parentheses dropped:
    /// `(+ 2 3)` becomes `+ 2 3`.
    pub fn remove_outer_brackets(expr: &Vec<char>) -> (r: Vec<char>)
        ensures
            r@ == strip_brackets(expr@),
    {
        let t = trim_chars(expr);
        if t.len() >= 2 && t[0] == '(' && t[t.len() - 1] == ')' {
            let inner = slice(&t, 1, t.len() - 1);
            trim_chars(&inner)
        } else {
            t
        }
    }

    /// Parses an expression; the functions registered so far are known by name.
    pub fn parse(expression: &Vec<char>, user_fns: &FunctionTable) -> (r: Result<Expression, ParseErrorKind>)
        ensures
            match r {
                Ok(e) => parse_expr(sigs_of(user_fns@), expression@) == Ok::<SExpr, ParseErrorKind>(
                    expr_view(e),
                ),
                Err(k) => parse_expr(sigs_of(user_fns@), expression@) == Err::<SExpr, ParseErrorKind>(k),
            },
        decreases expression@.len(), 0int, 0int,
    {
        let t = Expression::remove_outer_brackets(expression);
        if t.len() == 0 {
            return Err(ParseErrorKind::EmptyExpression);
        }
        match parse_literal(&t) {
            Some(Ok(v)) => {
                return Ok(Expression::Literal(v));
            },
            Some(Err(e)) => {
                return Err(e);
            },
            None => {},
        }
        let p = first_space_index(&t);
        proof {
            lemma_first_space(t@, 0);
            lemma_rest_shorter(expression@);
        }
        let head = slice(&t, 0, p);
        let tail = slice(&t, p, t.len());
        let rest = trim_chars(&tail);
        assert(head@ =~= head_of(t@));
        assert(tail@ =~= t@.skip(p as int));
        assert(rest@ == rest_of(t@));
        match BuiltIns::get_function(&head, &rest, user_fns) {
            Some(Ok(b)) => {
                return Ok(Expression::BuiltInFunction(Box::new(b)));
            },
            Some(Err(e)) => {
                return Err(e);
            },
            None => {},
        }
        match is_user_function_call(&head, user_fns) {
            Some(k) => {
                proof {
                    lemma_split_scan_short(rest@, 0, 0, 0);
                }
                let args = match Expression::evaluate_arguments(&rest, user_fns) {
                    Err(e) => {
                        return Err(e);
                    },
                    Ok(args) => args,
                };
                proof {
                    lemma_list_view_all(args);
                }
                if args.len() != user_fns.arity(k) {
                    return Err(ParseErrorKind::Arity);
                }
                Ok(Expression::UserFunction(string_of(&head), args))
            },
            None => Ok(Expression::Variable(string_of(&t))),
        }
    }

    /// Splits `args` at the spaces outside every parenthesis and parses each
    /// piece: `1 (+ 2 3) 4` gives three expressions.
    pub fn evaluate_arguments(args: &Vec<char>, user_fns: &FunctionTable) -> (r: Result<
        Vec<Expression>,
        ParseErrorKind,
    >)
        ensures
            ({
                &&& forall|j: int|
                    0 <= j < split_args(args@).len() ==> (#[trigger] split_args(args@)[j]).len()
                        <= args@.len()
                &&& match r {
                    Ok(v) => parse_segs(sigs_of(user_fns@), split_args(args@), 0, args@.len() as int)
                        == Ok::<Seq<SExpr>, ParseErrorKind>(list_view(v, 0)),
                    Err(e) => parse_segs(sigs_of(user_fns@), split_args(args@), 0, args@.len() as int)
                        == Err::<Seq<SExpr>, ParseErrorKind>(e),
                }
            }),
        decreases args@.len(), 1int, 0int,
    {
        proof {
            lemma_split_scan_short(args@, 0, 0, 0);
        }
        let ghost sigs = sigs_of(user_fns@);
        let ghost segs = split_args(args@);
        let ghost bound = args@.len() as int;
        let n = args.len();
        let mut res: Vec<Expression> = Vec::new();
        let mut brackets: i128 = 0;
        let mut start: usize = 0;
        let mut end: usize = 0;
        assert(segs =~= segs.take(0) + split_scan(args@, 0, 0, 0));
        while end < n
            invariant
                n == args.len(),
                bound == n,
                start <= end <= n,
                -(end as int) <= brackets <= end as int,
                res@.len() <= segs.len(),
                segs == split_args(args@),
                segs == segs.take(res@.len() as int) + split_scan(args@, end as int, start as int, brackets as int),
                forall|j: int| 0 <= j < segs.len() ==> (#[trigger] segs[j]).len() <= bound,
                parse_segs(sigs, segs, 0, bound) == prefixed(
                    res@.map_values(|e: Expression| expr_view(e)),
                    parse_segs(sigs, segs, res@.len() as int, bound),
                ),
                sigs == sigs_of(user_fns@),
            decreases n - end,
        {
            let c = args[end];
            if c == '(' {
                brackets = brackets + 1;
            } else if c == ')' {
                brackets = brackets - 1;
            } else if c == ' ' && brackets == 0 {
                let ghost k = res@.len() as int;
                let ghost tail = split_scan(args@, end as int + 1, end as int, 0);
                assert(split_scan(args@, end as int, start as int, brackets as int) == seq![
                    args@.subrange(start as int, end as int),
                ] + tail);
                assert(segs[k] == args@.subrange(start as int, end as int)) by {
                    assert((segs.take(k) + (seq![args@.subrange(start as int, end as int)] + tail))[k]
                        == args@.subrange(start as int, end as int));
                }
                let seg = slice(args, start, end);
                match Expression::parse(&seg, user_fns) {
                    Err(e) => {
                        return Err(e);
                    },
                    Ok(e) => {
                        let ghost pre = res@.map_values(|x: Expression| expr_view(x));
                        proof {
                            let later = parse_segs(sigs, segs, k + 1, bound);
                            assert(parse_segs(sigs, segs, k, bound) == match later {
                                Err(e2) => Err(e2),
                                Ok(vs) => Ok(seq![expr_view(e)] + vs),
                            });
                            match later {
                                Ok(vs) => {
                                    assert(pre + (seq![expr_view(e)] + vs) =~= pre.push(expr_view(e))
                                        + vs);
                                },
                                Err(_) => {},
                            }
                        }
                        res.push(e);
                        assert(res@.map_values(|x: Expression| expr_view(x)) =~= pre.push(
                            expr_view(e),
                        ));
                    },
                }
                assert(segs.take(k + 1) + tail =~= segs) by {
                    assert(segs.take(k + 1) =~= segs.take(k) + seq![args@.subrange(start as int, end as int)]);
                }
                start = end;
            }
            end = end + 1;
        }
        proof {
            assert(split_scan(args@, n as int, start as int, brackets as int) == if start < n {
                seq![args@.subrange(start as int, n as int)]
            } else {
                Seq::<Seq<char>>::empty()
            });
        }
        if start != end {
            let ghost k = res@.len() as int;
            assert(segs[k] == args@.subrange(start as int, n as int)) by {
                assert((segs.take(k) + seq![args@.subrange(start as int, n as int)])[k] == args@.subrange(start as int, n as int));
            }
            let seg = slice(args, start, n);
            match Expression::parse(&seg, user_fns) {
                Err(e) => {
                    return Err(e);
                },
                Ok(e) => {
                    let ghost pre = res@.map_values(|x: Expression| expr_view(x));
                    proof {
                        assert(segs.len() == k + 1);
                        assert(parse_segs(sigs, segs, k + 1, bound) == Ok::<Seq<SExpr>, ParseErrorKind>(
                            Seq::empty(),
                        ));
                        assert(parse_segs(sigs, segs, k, bound) == Ok::<Seq<SExpr>, ParseErrorKind>(
                            seq![expr_view(e)] + Seq::<SExpr>::empty(),
                        ));
                        assert(pre + (seq![expr_view(e)] + Seq::<SExpr>::empty()) =~= pre.push(
                            expr_view(e),
                        ));
                    }
                    res.push(e);
                    assert(res@.map_values(|x: Expression| expr_view(x)) =~= pre.push(expr_view(e)));
                },
            }
        } else {
            assert(segs.len() == res@.len());
            assert(parse_segs(sigs, segs, res@.len() as int, bound) == Ok::<Seq<SExpr>, ParseErrorKind>(
                Seq::empty(),
            ));
            assert(res@.map_values(|x: Expression| expr_view(x)) + Seq::<SExpr>::empty() =~= res@.map_values(
                |x: Expression| expr_view(x),
            ));
        }
        proof {
            lemma_list_view_all(res);
        }
        Ok(res)
    }

    /// Evaluates the expression against the store; `Ok(None)` is the no-value of
    /// `print` and `printa`. The store itself is never changed.
    pub fn evaluate(
        &self,
        data_store: &mut DataStore,
        out: &mut Vec<char>,
        user_fns: &FunctionTable,
        budget: Budget,
    ) -> (r: Result<Option<i64>, EvalError>)
        requires
            old(data_store).wf(),
        ensures
            final(data_store)@ == old(data_store)@,
            (Machine { store: final(data_store)@, out: final(out)@ }, r) == eval_expr(
                user_fns@,
                budget,
                *self,
                Machine { store: old(data_store)@, out: old(out)@ },
            ),
        decreases budget.depth, budget.steps, 0int, self, 0int,
    {
        match self {
            Expression::Literal(v) => Ok(Some(*v)),
            Expression::Variable(name) => match data_store.get(name) {
                Some(v) => Ok(Some(v)),
                None => Err(EvalError::UnboundVariable),
            },
            Expression::BuiltInFunction(op) => op.apply(data_store, out, user_fns, budget),
            Expression::UserFunction(name, args) => match user_fns.find(name) {
                None => Err(EvalError::UnknownFunction),
                Some(k) => user_fns.get(k).apply(args, data_store, out, user_fns, budget),
            },
        }
    }
}

/// Evaluates an expression that must yield a number.
pub(crate) fn evaluate_value(
    e: &Expression,
    data_store: &mut DataStore,
    out: &mut Vec<char>,
    user_fns: &FunctionTable,
    budget: Budget,
) -> (r: Result<i64, EvalError>)
    requires
        old(data_store).wf(),
    ensures
        final(data_store)@ == old(data_store)@,
        (Machine { store: final(data_store)@, out: final(out)@ }, r) == eval_value(
            user_fns@,
            budget,
            *e,
            Machine { store: old(data_store)@, out: old(out)@ },
        ),
    decreases budget.depth, budget.steps, 0int, e, 1int,
{
    match e.evaluate(data_store, out, user_fns, budget) {
        Err(err) => Err(err),
        Ok(None) => Err(EvalError::VoidValue),
        Ok(Some(v)) => Ok(v),
    }
}

/// Evaluates each expression, left to right, to a number.
pub(crate) fn evaluate_list(
    args: &Vec<Expression>,
    data_store: &mut DataStore,
    out: &mut Vec<char>,
    user_fns: &FunctionTable,
    budget: Budget,
) -> (r: Result<Vec<i64>, EvalError>)
    requires
        old(data_store).wf(),
    ensures
        final(data_store)@ == old(data_store)@,
        ({
            let (m, res) = eval_list(
                user_fns@,
                budget,
                *args,
                0,
                Machine { store: old(data_store)@, out: old(out)@ },
            );
            &&& m == Machine { store: final(data_store)@, out: final(out)@ }
            &&& match r {
                Ok(vs) => res == Ok::<Seq<i64>, EvalError>(vs@),
                Err(err) => res == Err::<Seq<i64>, EvalError>(err),
            }
        }),
        r matches Ok(vs) ==> vs@.len() == args@.len(),
    decreases budget.depth, budget.steps, 0int, args, 0int,
{
    let ghost m0 = Machine { store: data_store@, out: out@ };
    let mut vals: Vec<i64> = Vec::new();
    let mut i: usize = 0;
    while i < args.len()
        invariant
            i <= args.len(),
            m0 == (Machine { store: old(data_store)@, out: old(out)@ }),
            vals@.len() == i,
            data_store.wf(),
            data_store@ == old(data_store)@,
            eval_list(user_fns@, budget, *args, 0, m0) == prepend(
                vals@,
                eval_list(user_fns@, budget, *args, i as int, Machine { store: data_store@, out: out@ }),
            ),
        decreases args.len() - i,
    {
        let ghost mi = Machine { store: data_store@, out: out@ };
        match evaluate_value(&args[i], data_store, out, user_fns, budget) {
            Err(err) => {
                assert(eval_list(user_fns@, budget, *args, i as int, mi) == (
                    Machine { store: data_store@, out: out@ },
                    Err::<Seq<i64>, EvalError>(err),
                ));
                return Err(err);
            },
            Ok(v) => {
                let ghost m1 = Machine { store: data_store@, out: out@ };
                proof {
                    let rest = eval_list(user_fns@, budget, *args, i + 1, m1);
                    assert(eval_list(user_fns@, budget, *args, i as int, mi) == prepend(seq![v], rest));
                    match rest.1 {
                        Ok(vs) => {
                            assert(vals@ + (seq![v] + vs) =~= vals@.push(v) + vs);
                        },
                        Err(_) => {},
                    }
                }
                vals.push(v);
            },
        }
        i = i + 1;
    }
    assert(vals@ + Seq::<i64>::empty() =~= vals@);
    Ok(vals)
}

} // verus!
