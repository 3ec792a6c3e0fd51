//! Statements and programs.
use vstd::prelude::*;
use crate::constructs::Construct;
use crate::data_store::DataStore;
use crate::error::EvalError;
use crate::expression::{evaluate_value, Expression};
use crate::semantics::{run_line, run_lines, run_program, with_store, Budget, Machine};
use crate::assembly::{
    after, assignment_split, func_split, get_sub_program, lemma_block_end, lemma_program_view, lemma_sigs, line_view, names_view, parse_block,
    parse_params, program_view, table_view, text_lines, SFun, SLine,
};
use crate::error::{ParseError, ParseErrorKind};
use crate::folding::{line_folds, program_folds};
use crate::expression::is_user_function_call;
use crate::data_store::StoreModel;
use crate::layout::{expand_all, expand_lines, origins};
use crate::parser::relocate;
use crate::text::{chars_of, slice, string_of, trim_chars};
use crate::user_function::{FunctionTable, UserFunction};

verus! {

/// One statement.
pub enum Line {
    Assignment(String, Expression),
    Expression(Expression),
    Construct(Construct),
}

/// A sequence of statements; running it opens one scope frame around them.
pub struct Program {
    pub program: Vec<Line>,
}

proof fn lemma_after_assoc(pre: Seq<SLine>, x: SLine, r: Result<(Seq<SLine>, Seq<SFun>), ParseError>)
    ensures
        after(pre, after(seq![x], r)) == after(pre.push(x), r),
{
    match r {
        Ok((ls, funs)) => {
            assert(pre + (seq![x] + ls) =~= pre.push(x) + ls);
        },
        Err(_) => {},
    }
}

impl Program {
    /// The program with every statement optimised.
    pub fn optimise(&self) -> (r: Program)
        ensures
            program_folds(*self, r),
        decreases self, 0int,
    {
        let mut lines: Vec<Line> = Vec::new();
        let mut i: usize = 0;
        while i < self.program.len()
            invariant
                i <= self.program.len(),
                lines.len() == i,
                forall|j: int| 0 <= j < i ==> line_folds(#[trigger] self.program@[j], lines@[j]),
            decreases self.program.len() - i,
        {
            let line = match &self.program[i] {
                Line::Assignment(v, e) => Line::Assignment(v.clone(), e.optimise()),
                Line::Expression(e) => Line::Expression(e.optimise()),
                Line::Construct(c) => Line::Construct(c.optimise()),
            };
            lines.push(line);
            i = i + 1;
        }
        Program { program: lines }
    }

    /// Parses a program given as lines of text; functions declared in it are
    /// registered in `user_fns`. A parse error gives the line where it was found.
    pub fn from_lines(lines: &Vec<String>, user_fns: &mut FunctionTable) -> (r: Result<Program, ParseError>)
        ensures
            ({
                let src = lines@.map_values(|s: String| s@);
                let expanded = expand_all(src, 0);
                let parsed = parse_block(table_view(old(user_fns)@), expanded, 0, expanded.len() as int);
                match r {
                    Ok(p) => parsed == Ok::<(Seq<SLine>, Seq<SFun>), ParseError>(
                        (program_view(p), table_view(final(user_fns)@)),
                    ),
                    Err(e) => parsed is Err && e == relocate(parsed->Err_0, origins(src, 0)),
                }
            }),
    {
        let mut text: Vec<Vec<char>> = Vec::new();
        let mut i: usize = 0;
        while i < lines.len()
            invariant
                i <= lines.len(),
                text_lines(text) == lines@.take(i as int).map_values(|s: String| s@),
            decreases lines.len() - i,
        {
            let v = chars_of(lines[i].as_str());
            let ghost before = text_lines(text);
            text.push(v);
            assert(text_lines(text) =~= before.push(v@));
            assert(lines@.take(i + 1).map_values(|s: String| s@) =~= lines@.take(i as int).map_values(
                |s: String| s@,
            ).push(lines@[i as int]@));
            i = i + 1;
        }
        assert(lines@.take(lines.len() as int) =~= lines@);
        let (expanded, org) = expand_lines(&text);
        match Program::from_text(&expanded, 0, expanded.len(), user_fns) {
            Ok(p) => Ok(p),
            Err(e) => {
                let line = if 1 <= e.line && e.line <= org.len() {
                    org[e.line - 1]
                } else {
                    e.line
                };
                Err(ParseError { line, kind: e.kind })
            },
        }
    }

    /// Runs the program in a fresh store; gives the printed text and how the run ended.
    pub fn start(&self, user_fns: &FunctionTable, budget: Budget) -> (r: (Vec<char>, Result<(), EvalError>))
        ensures
            ({
                let (m, res) = run_program(
                    user_fns@,
                    budget,
                    *self,
                    Machine { store: StoreModel::empty(), out: Seq::empty() },
                );
                r.0@ == m.out && r.1 == res
            }),
    {
        let mut store = DataStore::new();
        let mut out: Vec<char> = Vec::new();
        assert(out@ =~= Seq::<char>::empty());
        let res = self.run_with(&mut store, &mut out, user_fns, budget);
        (out, res)
    }

    /// Parses the lines `lo .. hi` as one block. Functions declared in it are
    /// registered in `user_fns` as they are met.
    pub fn from_text(lines: &Vec<Vec<char>>, lo: usize, hi: usize, user_fns: &mut FunctionTable) -> (r:
        Result<Program, ParseError>)
        requires
            hi <= lines.len(),
        ensures
            final(user_fns)@.len() >= old(user_fns)@.len(),
            match r {
                Ok(p) => parse_block(table_view(old(user_fns)@), text_lines(*lines), lo as int, hi as int)
                    == Ok::<(Seq<SLine>, Seq<SFun>), ParseError>(
                    (program_view(p), table_view(final(user_fns)@)),
                ),
                Err(e) => parse_block(table_view(old(user_fns)@), text_lines(*lines), lo as int, hi as int)
                    == Err::<(Seq<SLine>, Seq<SFun>), ParseError>(e),
            },
        decreases hi - lo, 1int,
    {
        let ghost big_l = text_lines(*lines);
        let ghost f0 = table_view(user_fns@);
        let mut program: Vec<Line> = Vec::new();
        let mut i: usize = lo;
        assert(after(Seq::empty(), parse_block(f0, big_l, lo as int, hi as int)) == parse_block(
            f0,
            big_l,
            lo as int,
            hi as int,
        )) by {
            match parse_block(f0, big_l, lo as int, hi as int) {
                Ok((ls, funs)) => {
                    assert(Seq::<SLine>::empty() + ls =~= ls);
                },
                Err(_) => {},
            }
        }
        while i < hi
            invariant
                lo <= i,
                i <= hi || i == lo,
                hi <= lines.len(),
                big_l == text_lines(*lines),
                f0 == table_view(old(user_fns)@),
                user_fns@.len() >= old(user_fns)@.len(),
                parse_block(f0, big_l, lo as int, hi as int) == after(
                    program@.map_values(|l: Line| line_view(l)),
                    parse_block(table_view(user_fns@), big_l, i as int, hi as int),
                ),
            decreases hi - i,
        {
            let ghost fi = table_view(user_fns@);
            let ghost pre = program@.map_values(|l: Line| line_view(l));
            let l = trim_chars(&lines[i]);
            assert(big_l[i as int] == lines@[i as int]@);
            proof {
                lemma_sigs(user_fns@);
            }
            if l.len() == 0 {
                i = i + 1;
            } else if l.len() == 1 && l[0] == '}' {
                return Err(ParseError { line: i + 1, kind: ParseErrorKind::UnmatchedBrace });
            } else if let Some(n) = assignment_split(&l) {
                let name = slice(&l, 0, n);
                let text = slice(&l, n + 2, l.len());
                assert(text@ =~= l@.skip(n + 2));
                match Expression::parse(&text, user_fns) {
                    Err(k) => {
                        return Err(ParseError { line: i + 1, kind: k });
                    },
                    Ok(e) => {
                        let line = Line::Assignment(string_of(&name), e);
                        proof {
                            lemma_after_assoc(pre, line_view(line), parse_block(fi, big_l, i + 1, hi as int));
                        }
                        program.push(line);
                        assert(program@.map_values(|l: Line| line_view(l)) =~= pre.push(line_view(line)));
                        i = i + 1;
                    },
                }
            } else if let Some(parsed) = Construct::parse(&l, lines, i, hi, user_fns) {
                match parsed {
                    Err(e) => {
                        return Err(e);
                    },
                    Ok((c, close)) => {
                        let line = Line::Construct(c);
                        proof {
                            lemma_block_end(big_l, i + 1, hi as int, 1);
                            lemma_after_assoc(
                                pre,
                                line_view(line),
                                parse_block(table_view(user_fns@), big_l, close + 1, hi as int),
                            );
                        }
                        program.push(line);
                        assert(program@.map_values(|l: Line| line_view(l)) =~= pre.push(line_view(line)));
                        i = close + 1;
                    },
                }
            } else if let Some(n) = func_split(&l) {
                let close = match get_sub_program(lines, i + 1, hi) {
                    None => {
                        return Err(ParseError { line: i + 1, kind: ParseErrorKind::UnclosedBlock });
                    },
                    Some(close) => close,
                };
                proof {
                    lemma_block_end(big_l, i + 1, hi as int, 1);
                }
                let name = slice(&l, 5, n);
                let ptext = slice(&l, n + 1, l.len() - 2);
                let params = match parse_params(&ptext) {
                    None => {
                        return Err(ParseError { line: i + 1, kind: ParseErrorKind::MalformedHeader });
                    },
                    Some(params) => params,
                };
                if is_user_function_call(&name, user_fns).is_some() {
                    return Err(ParseError { line: i + 1, kind: ParseErrorKind::DuplicateFunction });
                }
                let k = user_fns.len();
                let empty = Program { program: Vec::new() };
                assert(program_view(empty) =~= Seq::<SLine>::empty());
                user_fns.register(string_of(&name), UserFunction { code: empty, args: params });
                assert(table_view(user_fns@) =~= fi.push(
                    SFun { name: name@, params: names_view(params), body: Seq::empty() },
                ));
                let body = match Program::from_text(lines, i + 1, close, user_fns) {
                    Err(e) => {
                        return Err(e);
                    },
                    Ok(body) => body,
                };
                let ghost f2 = table_view(user_fns@);
                user_fns.set_code(k, body);
                assert(table_view(user_fns@) =~= f2.update(
                    k as int,
                    SFun { body: program_view(body), ..f2[k as int] },
                ));
                i = close + 1;
            } else {
                match Expression::parse(&l, user_fns) {
                    Err(k) => {
                        return Err(ParseError { line: i + 1, kind: k });
                    },
                    Ok(e) => {
                        let line = Line::Expression(e);
                        proof {
                            lemma_after_assoc(pre, line_view(line), parse_block(fi, big_l, i + 1, hi as int));
                        }
                        program.push(line);
                        assert(program@.map_values(|l: Line| line_view(l)) =~= pre.push(line_view(line)));
                        i = i + 1;
                    },
                }
            }
        }
        let ghost pre = program@.map_values(|l: Line| line_view(l));
        assert(parse_block(table_view(user_fns@), big_l, i as int, hi as int) == Ok::<
            (Seq<SLine>, Seq<SFun>),
            ParseError,
        >((Seq::empty(), table_view(user_fns@))));
        assert(pre + Seq::<SLine>::empty() =~= pre);
        let p = Program { program };
        proof {
            lemma_program_view(p);
        }
        Ok(p)
    }

    /// Runs the statements in a new frame of `data_store`, popped when they all succeed.
    pub fn run_with(
        &self,
        data_store: &mut DataStore,
        out: &mut Vec<char>,
        user_fns: &FunctionTable,
        budget: Budget,
    ) -> (r: Result<(), EvalError>)
        requires
            old(data_store).wf(),
        ensures
            final(data_store).wf(),
            r is Ok ==> final(data_store)@.frames.len() == old(data_store)@.frames.len(),
            (Machine { store: final(data_store)@, out: final(out)@ }, r) == run_program(
                user_fns@,
                budget,
                *self,
                Machine { store: old(data_store)@, out: old(out)@ },
            ),
        decreases budget.depth, budget.steps, 1int, self, 0int,
    {
        data_store.expand();
        let ghost m0 = Machine { store: data_store@, out: out@ };
        let mut i: usize = 0;
        while i < self.program.len()
            invariant
                i <= self.program.len(),
                m0 == with_store(
                    Machine { store: old(data_store)@, out: old(out)@ },
                    old(data_store)@.push_frame(),
                ),
                data_store.wf(),
                data_store@.frames.len() == old(data_store)@.frames.len() + 1,
                run_lines(user_fns@, budget, self.program, 0, m0) == run_lines(
                    user_fns@,
                    budget,
                    self.program,
                    i as int,
                    Machine { store: data_store@, out: out@ },
                ),
            decreases self.program.len() - i,
        {
            let ghost mi = Machine { store: data_store@, out: out@ };
            match &self.program[i] {
                Line::Assignment(var, exp) => {
                    match evaluate_value(exp, data_store, out, user_fns, budget) {
                        Err(e) => {
                            let ghost mf = Machine { store: data_store@, out: out@ };
                            assert(run_line(user_fns@, budget, self.program@[i as int], mi)
                                == (mf, Err::<(), EvalError>(e)));
                            assert(run_lines(user_fns@, budget, self.program, i as int, mi)
                                == (mf, Err::<(), EvalError>(e)));
                            assert(run_lines(user_fns@, budget, self.program, 0, m0)
                                == (mf, Err::<(), EvalError>(e)));
                            return Err(e);
                        },
                        Ok(val) => {
                            data_store.put(var, val);
                        },
                    }
                    assert(run_line(user_fns@, budget, self.program@[i as int], mi).0 == Machine {
                        store: data_store@,
                        out: out@,
                    });
                    assert(run_line(user_fns@, budget, self.program@[i as int], mi).1 is Ok);
                },
                Line::Expression(exp) => {
                    match exp.evaluate(data_store, out, user_fns, budget) {
                        Err(e) => {
                            let ghost mf = Machine { store: data_store@, out: out@ };
                            assert(run_line(user_fns@, budget, self.program@[i as int], mi)
                                == (mf, Err::<(), EvalError>(e)));
                            assert(run_lines(user_fns@, budget, self.program, i as int, mi)
                                == (mf, Err::<(), EvalError>(e)));
                            assert(run_lines(user_fns@, budget, self.program, 0, m0)
                                == (mf, Err::<(), EvalError>(e)));
                            return Err(e);
                        },
                        Ok(_) => {},
                    }
                    assert(run_line(user_fns@, budget, self.program@[i as int], mi).0 == Machine {
                        store: data_store@,
                        out: out@,
                    });
                    assert(run_line(user_fns@, budget, self.program@[i as int], mi).1 is Ok);
                },
                Line::Construct(cons) => {
                    match cons.apply(data_store, out, user_fns, budget) {
                        Err(e) => {
                            let ghost mf = Machine { store: data_store@, out: out@ };
                            assert(run_line(user_fns@, budget, self.program@[i as int], mi)
                                == (mf, Err::<(), EvalError>(e)));
                            assert(run_lines(user_fns@, budget, self.program, i as int, mi)
                                == (mf, Err::<(), EvalError>(e)));
                            assert(run_lines(user_fns@, budget, self.program, 0, m0)
                                == (mf, Err::<(), EvalError>(e)));
                            return Err(e);
                        },
                        Ok(()) => {},
                    }
                    assert(run_line(user_fns@, budget, self.program@[i as int], mi).0 == Machine {
                        store: data_store@,
                        out: out@,
                    });
                    assert(run_line(user_fns@, budget, self.program@[i as int], mi).1 is Ok);
                },
            }
            i = i + 1;
        }
        data_store.contract();
        Ok(())
    }
}

} // verus!
