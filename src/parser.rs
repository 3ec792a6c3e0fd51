//! Running a whole program from its source text.
use vstd::prelude::*;
use crate::assembly::{program_view, split_on, table_view, text_lines, SFun};
use crate::data_store::StoreModel;
use crate::error::{EvalError, ParseError, RunError};
use crate::layout::{expand_all, expand_lines, origins};
use crate::program::Program;
use crate::semantics::{run_program, Budget, Machine};
use crate::user_function::{FunctionTable, UserFunction};

verus! {

/// The lines of a source text.
pub open spec fn source_lines(src: Seq<char>) -> Seq<Seq<char>> {
    split_on(src, '\n', 0, 0)
}

/// The error with its line number taken back to the source line it came from.
pub open spec fn relocate(e: ParseError, org: Seq<usize>) -> ParseError {
    if 1 <= e.line <= org.len() {
        ParseError { line: org[e.line - 1], kind: e.kind }
    } else {
        e
    }
}

/// Whether a run's result says what the evaluation's result says.
pub open spec fn same_outcome(r: Result<(), RunError>, s: Result<(), EvalError>) -> bool {
    match s {
        Ok(_) => r is Ok,
        Err(e) => r == Err::<(), RunError>(RunError::Eval(e)),
    }
}

/// Splits source text into lines at each `\n`.
pub fn split_source(src: &str) -> (r: Vec<Vec<char>>)
    ensures
        text_lines(r) == source_lines(src@),
{
    let chars = crate::text::chars_of(src);
    let mut lines: Vec<Vec<char>> = Vec::new();
    let mut start: usize = 0;
    let mut i: usize = 0;
    while i < chars.len()
        invariant
            start <= i <= chars.len(),
            chars@ == src@,
            source_lines(src@) == text_lines(lines) + split_on(chars@, '\n', i as int, start as int),
        decreases chars.len() - i,
    {
        if chars[i] == '\n' {
            let ghost tail = split_on(chars@, '\n', i + 1, i + 1);
            assert(split_on(chars@, '\n', i as int, start as int) == seq![
                chars@.subrange(start as int, i as int),
            ] + tail);
            let line = crate::text::slice(&chars, start, i);
            lines.push(line);
            assert(text_lines(lines) =~= text_lines(lines).drop_last().push(line@));
            assert(source_lines(src@) =~= text_lines(lines) + tail);
            start = i + 1;
        } else {
            assert(split_on(chars@, '\n', i as int, start as int) == split_on(
                chars@,
                '\n',
                i + 1,
                start as int,
            ));
        }
        i = i + 1;
    }
    let line = crate::text::slice(&chars, start, chars.len());
    lines.push(line);
    assert(text_lines(lines) =~= source_lines(src@));
    lines
}

/// Parses the source text and runs it: gives the printed text (kept up to a
/// failure) and how the run ended. Nothing runs when the text does not parse;
/// a parse error gives the source line where it was found.
pub fn interpret(source: &str, budget: Budget) -> (r: (Vec<char>, Result<(), RunError>))
    ensures
        ({
            let lines = expand_all(source_lines(source@), 0);
            let org = origins(source_lines(source@), 0);
            match crate::assembly::parse_block(Seq::empty(), lines, 0, lines.len() as int) {
                Err(e) => r.1 == Err::<(), RunError>(RunError::Parse(relocate(e, org))) && r.0@.len() == 0,
                Ok((prog, funs)) => exists|p: Program, reg: Seq<(Seq<char>, UserFunction)>|
                    {
                        &&& program_view(p) == prog
                        &&& table_view(reg) == funs
                        &&& r.0@ == run_program(
                            reg,
                            budget,
                            p,
                            Machine { store: StoreModel::empty(), out: Seq::empty() },
                        ).0.out
                        &&& same_outcome(
                            r.1,
                            run_program(
                                reg,
                                budget,
                                p,
                                Machine { store: StoreModel::empty(), out: Seq::empty() },
                            ).1,
                        )
                    },
            }
        }),
{
    let source_lines = split_source(source);
    let (lines, org) = expand_lines(&source_lines);
    let mut user_fns = FunctionTable::new();
    assert(table_view(user_fns@) =~= Seq::<SFun>::empty());
    match Program::from_text(&lines, 0, lines.len(), &mut user_fns) {
        Err(e) => {
            let line = if 1 <= e.line && e.line <= org.len() {
                org[e.line - 1]
            } else {
                e.line
            };
            (Vec::new(), Err(RunError::Parse(ParseError { line, kind: e.kind })))
        },
        Ok(p) => {
            let (out, res) = p.start(&user_fns, budget);
            let ghost reg = user_fns@;
            let run = match res {
                Ok(_) => Ok(()),
                Err(e) => Err(RunError::Eval(e)),
            };
            assert(program_view(p) == program_view(p) && table_view(reg) == table_view(user_fns@));
            (out, run)
        },
    }
}

} // verus!
