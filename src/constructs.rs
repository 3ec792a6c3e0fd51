//! The control constructs `if`, `while` and `for`.
use vstd::prelude::*;
use crate::data_store::DataStore;
use crate::error::EvalError;
use crate::expression::{evaluate_value, Expression};
use crate::program::Program;
use crate::semantics::{apply_construct, close_for, run_for, run_while, Budget, Machine};
use crate::assembly::{
    at_line, block_end, for_header, for_split, get_sub_program, if_header, is_if_header,
    is_while_header, lemma_block_end, lemma_sigs, line_view, parse_construct, table_view,
    text_lines, while_header, SFun, SLine,
};
use crate::error::{ParseError, ParseErrorKind};
use crate::folding::construct_folds;
use crate::program::Line;
use crate::syntax::{expr_view, lemma_list_view_all, lemma_split_scan_short, list_view, trim};
use crate::text::{slice, string_of};
use crate::user_function::FunctionTable;

verus! {

/// A block construct with its header expressions and body.
pub enum Construct {
    If(Expression, Program),
    While(Expression, Program),
    /// Loop variable, start, end (exclusive), body.
    For(String, Expression, Expression, Program),
}

/// The parsed header line of a construct, before its body is parsed.
enum Header {
    If(Expression),
    While(Expression),
    For(String, Expression, Expression),
}

impl Construct {
    /// The construct with its header expressions and body optimised.
    pub fn optimise(&self) -> (r: Construct)
        ensures
            construct_folds(*self, r),
        decreases self, 0int,
    {
        match self {
            Construct::If(e, p) => Construct::If(e.optimise(), p.optimise()),
            Construct::While(e, p) => Construct::While(e.optimise(), p.optimise()),
            Construct::For(v, a, b, p) => Construct::For(v.clone(), a.optimise(), b.optimise(), p.optimise()),
        }
    }

    /// Parses the `if`, `while` or `for` construct whose header, already trimmed,
    /// is `line`, found at index `at`: its block runs to the matching `}` before
    /// `hi`. `None` when `line` is no such header; else the construct and the
    /// index of its closing line.
    pub fn parse(
        line: &Vec<char>,
        lines: &Vec<Vec<char>>,
        at: usize,
        hi: usize,
        user_fns: &mut FunctionTable,
    ) -> (r: Option<Result<(Construct, usize), ParseError>>)
        requires
            at < hi <= lines.len(),
            line@ == trim(text_lines(*lines)[at as int]),
        ensures
            final(user_fns)@.len() >= old(user_fns)@.len(),
            r is None ==> final(user_fns)@ == old(user_fns)@,
            match r {
                None => !(if_header(line@) is Some || while_header(line@) is Some || for_header(
                    line@,
                ) is Some),
                Some(res) => (if_header(line@) is Some || while_header(line@) is Some || for_header(
                    line@,
                ) is Some) && match block_end(text_lines(*lines), at + 1, hi as int, 1) {
                    None => res == Err::<(Construct, usize), ParseError>(
                        at_line(at as int, ParseErrorKind::UnclosedBlock),
                    ),
                    Some(close) => match res {
                        Ok((c, k)) => k == close && parse_construct(
                            table_view(old(user_fns)@),
                            text_lines(*lines),
                            at as int,
                            close,
                        ) == Ok::<(SLine, Seq<SFun>), ParseError>(
                            (line_view(Line::Construct(c)), table_view(final(user_fns)@)),
                        ),
                        Err(e) => parse_construct(
                            table_view(old(user_fns)@),
                            text_lines(*lines),
                            at as int,
                            close,
                        ) == Err::<(SLine, Seq<SFun>), ParseError>(e),
                    },
                },
            },
        decreases hi - at, 0int,
    {
        let is_if = is_if_header(line);
        let is_while = is_while_header(line);
        let for_at = for_split(line);
        if !is_if && !is_while && for_at.is_none() {
            return None;
        }
        let close = match get_sub_program(lines, at + 1, hi) {
            None => {
                return Some(Err(ParseError { line: at + 1, kind: ParseErrorKind::UnclosedBlock }));
            },
            Some(close) => close,
        };
        proof {
            lemma_block_end(text_lines(*lines), at + 1, hi as int, 1);
            lemma_sigs(user_fns@);
        }
        let n = line.len();
        let header = if is_if || is_while {
            let start: usize = if is_if { 3 } else { 6 };
            let text = slice(line, start, n - 2);
            match Expression::parse(&text, user_fns) {
                Err(k) => {
                    return Some(Err(ParseError { line: at + 1, kind: k }));
                },
                Ok(e) => if is_if {
                    Header::If(e)
                } else {
                    Header::While(e)
                },
            }
        } else {
            let v = for_at.unwrap();
            let var = slice(line, 4, v);
            let text = slice(line, v + 1, n - 2);
            proof {
                lemma_split_scan_short(text@, 0, 0, 0);
            }
            let mut bounds = match Expression::evaluate_arguments(&text, user_fns) {
                Err(k) => {
                    return Some(Err(ParseError { line: at + 1, kind: k }));
                },
                Ok(b) => b,
            };
            proof {
                lemma_list_view_all(bounds);
            }
            if bounds.len() != 2 {
                return Some(Err(ParseError { line: at + 1, kind: ParseErrorKind::Arity }));
            }
            let ghost views = list_view(bounds, 0);
            let end = bounds.pop().unwrap();
            let start = bounds.pop().unwrap();
            assert(views[0] == expr_view(start));
            assert(views[1] == expr_view(end));
            Header::For(string_of(&var), start, end)
        };
        let body = match Program::from_text(lines, at + 1, close, user_fns) {
            Err(e) => {
                return Some(Err(e));
            },
            Ok(body) => body,
        };
        let c = match header {
            Header::If(e) => Construct::If(e, body),
            Header::While(e) => Construct::While(e, body),
            Header::For(var, start, end) => Construct::For(var, start, end, body),
        };
        Some(Ok((c, close)))
    }

    /// Runs the construct. `if` runs its body once when the condition is not 0;
    /// `while` re-tests its condition before each run of the body; `for` opens one
    /// frame for the whole loop and binds the variable to each of `start .. end`.
    pub fn apply(
        &self,
        data_store: &mut DataStore,
        out: &mut Vec<char>,
        user_fns: &FunctionTable,
        budget: Budget,
    ) -> (r: Result<(), EvalError>)
        requires
            old(data_store).wf(),
        ensures
            final(data_store).wf(),
            r is Ok ==> final(data_store)@.frames.len() == old(data_store)@.frames.len(),
            (Machine { store: final(data_store)@, out: final(out)@ }, r) == apply_construct(
                user_fns@,
                budget,
                *self,
                Machine { store: old(data_store)@, out: old(out)@ },
            ),
        decreases budget.depth, budget.steps, 1int, self, 1int,
    {
        match self {
            Construct::If(expr, sub) => {
                match evaluate_value(expr, data_store, out, user_fns, budget) {
                    Err(e) => Err(e),
                    Ok(v) => if v != 0 {
                        sub.run_with(data_store, out, user_fns, budget)
                    } else {
                        Ok(())
                    },
                }
            },
            Construct::While(expr, sub) => {
                let mut b = budget;
                loop
                    invariant
                        *self == Construct::While(*expr, *sub),
                        data_store.wf(),
                        data_store@.frames.len() == old(data_store)@.frames.len(),
                        b.depth == budget.depth,
                        b.steps <= budget.steps,
                        run_while(user_fns@, b, *self, Machine { store: data_store@, out: out@ })
                            == run_while(
                            user_fns@,
                            budget,
                            *self,
                            Machine { store: old(data_store)@, out: old(out)@ },
                        ),
                    decreases b.steps,
                {
                    match evaluate_value(expr, data_store, out, user_fns, b) {
                        Err(e) => {
                            return Err(e);
                        },
                        Ok(v) => {
                            if v == 0 {
                                return Ok(());
                            }
                        },
                    }
                    if b.steps == 0 {
                        return Err(EvalError::StepLimit);
                    }
                    b = Budget { depth: b.depth, steps: b.steps - 1 };
                    match sub.run_with(data_store, out, user_fns, b) {
                        Err(e) => {
                            return Err(e);
                        },
                        Ok(()) => {},
                    }
                }
            },
            Construct::For(var, start, end, sub) => {
                data_store.expand();
                let lo = match evaluate_value(start, data_store, out, user_fns, budget) {
                    Err(e) => {
                        return Err(e);
                    },
                    Ok(v) => v,
                };
                let hi = match evaluate_value(end, data_store, out, user_fns, budget) {
                    Err(e) => {
                        return Err(e);
                    },
                    Ok(v) => v,
                };
                let ghost m2 = Machine { store: data_store@, out: out@ };
                assert(apply_construct(
                    user_fns@,
                    budget,
                    *self,
                    Machine { store: old(data_store)@, out: old(out)@ },
                ) == close_for(run_for(user_fns@, budget, var@, lo as int, hi as int, *sub, m2)));
                let mut i: i64 = lo;
                while i < hi
                    invariant
                        *self == Construct::For(*var, *start, *end, *sub),
                        apply_construct(
                            user_fns@,
                            budget,
                            *self,
                            Machine { store: old(data_store)@, out: old(out)@ },
                        ) == close_for(run_for(user_fns@, budget, var@, lo as int, hi as int, *sub, m2)),
                        data_store.wf(),
                        data_store@.frames.len() == old(data_store)@.frames.len() + 1,
                        run_for(user_fns@, budget, var@, lo as int, hi as int, *sub, m2) == run_for(
                            user_fns@,
                            budget,
                            var@,
                            i as int,
                            hi as int,
                            *sub,
                            Machine { store: data_store@, out: out@ },
                        ),
                    decreases hi - i,
                {
                    data_store.put(var, i);
                    proof {
                        assert(decreases_to!(*self => *sub));
                    }
                    match sub.run_with(data_store, out, user_fns, budget) {
                        Err(e) => {
                            return Err(e);
                        },
                        Ok(()) => {},
                    }
                    i = i + 1;
                }
                data_store.contract();
                Ok(())
            },
        }
    }
}

} // verus!
