//! The grammar of programs: one statement or block header per line.
//!
//! A line is, in this order of preference: an assignment `name: expr`; an
//! `if expr {`, `while expr {` or `for name start end {` header; a
//! `func name (param ...) {` declaration; or a bare expression. A header's block
//! runs to the `}` line that closes it, counting every line that ends in `{` as
//! an opener. Functions are registered as they are declared, and a function is
//! known inside its own body.
use vstd::prelude::*;
use crate::constructs::Construct;
use crate::error::{ParseError, ParseErrorKind};
use crate::program::{Line, Program};
use crate::syntax::{expr_view, parse_expr, parse_segs, split_args, trim, SExpr};
use crate::user_function::UserFunction;

verus! {

/// A statement as a mathematical value.
pub enum SLine {
    Assign(Seq<char>, SExpr),
    Expr(SExpr),
    If(SExpr, Seq<SLine>),
    While(SExpr, Seq<SLine>),
    For(Seq<char>, SExpr, SExpr, Seq<SLine>),
}

/// A registered function as a mathematical value: name, parameters, body.
pub struct SFun {
    pub name: Seq<char>,
    pub params: Seq<Seq<char>>,
    pub body: Seq<SLine>,
}

pub open spec fn program_view(p: Program) -> Seq<SLine>
    decreases p, 0int,
{
    lines_view(p.program, 0)
}

pub open spec fn lines_view(lines: Vec<Line>, i: int) -> Seq<SLine>
    decreases lines, lines.len() - i,
{
    if i < 0 || i >= lines.len() {
        Seq::empty()
    } else {
        seq![line_view(lines[i])] + lines_view(lines, i + 1)
    }
}

pub open spec fn line_view(l: Line) -> SLine
    decreases l, 0int,
{
    match l {
        Line::Assignment(n, e) => SLine::Assign(n@, expr_view(e)),
        Line::Expression(e) => SLine::Expr(expr_view(e)),
        Line::Construct(c) => match c {
            Construct::If(e, p) => SLine::If(expr_view(e), program_view(p)),
            Construct::While(e, p) => SLine::While(expr_view(e), program_view(p)),
            Construct::For(v, a, b, p) => SLine::For(v@, expr_view(a), expr_view(b), program_view(p)),
        },
    }
}

pub open spec fn names_view(v: Vec<String>) -> Seq<Seq<char>> {
    v@.map_values(|s: String| s@)
}

pub open spec fn table_view(reg: Seq<(Seq<char>, UserFunction)>) -> Seq<SFun> {
    reg.map_values(
        |e: (Seq<char>, UserFunction)|
            SFun { name: e.0, params: names_view(e.1.args), body: program_view(e.1.code) },
    )
}

pub open spec fn fun_sigs(funs: Seq<SFun>) -> Seq<(Seq<char>, nat)> {
    funs.map_values(|f: SFun| (f.name, f.params.len()))
}

pub open spec fn is_ident_char(c: char) -> bool {
    ('a' <= c <= 'z') || c == '_'
}

/// The end of the run of identifier characters that starts at `i`.
pub open spec fn ident_end(l: Seq<char>, i: int) -> int
    decreases l.len() - i,
{
    if i < 0 || i >= l.len() || !is_ident_char(l[i]) {
        if i < 0 { 0 } else if i > l.len() { l.len() as int } else { i }
    } else {
        ident_end(l, i + 1)
    }
}

/// Ends with a space and `{`.
pub open spec fn opens_block(l: Seq<char>) -> bool {
    l.len() >= 2 && l[l.len() - 2] == ' ' && l[l.len() - 1] == '{'
}

/// `name: expr`, giving the name and the expression text.
pub open spec fn assignment_parts(l: Seq<char>) -> Option<(Seq<char>, Seq<char>)> {
    let n = ident_end(l, 0);
    if n >= 1 && l.len() - n >= 3 && l[n] == ':' && l[n + 1] == ' ' {
        Some((l.take(n), l.skip(n + 2)))
    } else {
        None
    }
}

/// `if expr {`, giving the condition text.
pub open spec fn if_header(l: Seq<char>) -> Option<Seq<char>> {
    if l.len() >= 6 && l[0] == 'i' && l[1] == 'f' && l[2] == ' ' && opens_block(l) {
        Some(l.subrange(3, l.len() - 2))
    } else {
        None
    }
}

/// `while expr {`, giving the condition text.
pub open spec fn while_header(l: Seq<char>) -> Option<Seq<char>> {
    if l.len() >= 9 && l[0] == 'w' && l[1] == 'h' && l[2] == 'i' && l[3] == 'l' && l[4] == 'e'
        && l[5] == ' ' && opens_block(l) {
        Some(l.subrange(6, l.len() - 2))
    } else {
        None
    }
}

/// `for name rest {`, giving the loop variable and the text of its bounds.
pub open spec fn for_header(l: Seq<char>) -> Option<(Seq<char>, Seq<char>)> {
    let n = ident_end(l, 4);
    if l.len() >= 4 && l[0] == 'f' && l[1] == 'o' && l[2] == 'r' && l[3] == ' ' && n > 4 && l.len()
        >= n + 3 && l[n] == ' ' && opens_block(l) {
        Some((l.subrange(4, n), l.subrange(n + 1, l.len() - 2)))
    } else {
        None
    }
}

/// `func name params {`, giving the name and the parameter text.
pub open spec fn func_header(l: Seq<char>) -> Option<(Seq<char>, Seq<char>)> {
    let n = ident_end(l, 5);
    if l.len() >= 5 && l[0] == 'f' && l[1] == 'u' && l[2] == 'n' && l[3] == 'c' && l[4] == ' '
        && n > 5 && l.len() >= n + 4 && l[n] == ' ' && opens_block(l) {
        Some((l.subrange(5, n), l.subrange(n + 1, l.len() - 2)))
    } else {
        None
    }
}

/// The pieces of `s[start..]` between occurrences of `sep`, scanning from `i`.
pub open spec fn split_on(s: Seq<char>, sep: char, i: int, start: int) -> Seq<Seq<char>>
    decreases s.len() - i,
{
    if i < 0 || i >= s.len() {
        seq![s.subrange(start, s.len() as int)]
    } else if s[i] == sep {
        seq![s.subrange(start, i)] + split_on(s, sep, i + 1, i + 1)
    } else {
        split_on(s, sep, i + 1, start)
    }
}

/// `(a b ...)`: the parameter names, none of them empty.
pub open spec fn params_of(m: Seq<char>) -> Option<Seq<Seq<char>>> {
    if m.len() >= 2 && m[0] == '(' && m[m.len() - 1] == ')' {
        let inner = m.subrange(1, m.len() - 1);
        if inner.len() == 0 {
            Some(Seq::empty())
        } else {
            let ws = split_on(inner, ' ', 0, 0);
            if forall|k: int| 0 <= k < ws.len() ==> (#[trigger] ws[k]).len() > 0 {
                Some(ws)
            } else {
                None
            }
        }
    } else {
        None
    }
}

pub open spec fn is_close(l: Seq<char>) -> bool {
    l.len() == 1 && l[0] == '}'
}

pub open spec fn ends_open(l: Seq<char>) -> bool {
    l.len() >= 1 && l[l.len() - 1] == '{'
}

/// The line in `j .. hi` that closes a block, with `depth` blocks open at `j`.
pub open spec fn block_end(lines: Seq<Seq<char>>, j: int, hi: int, depth: int) -> Option<int>
    decreases hi - j,
{
    if j < 0 || j >= hi || j >= lines.len() {
        None
    } else if ends_open(trim(lines[j])) {
        block_end(lines, j + 1, hi, depth + 1)
    } else if is_close(trim(lines[j])) {
        if depth - 1 == 0 {
            Some(j)
        } else {
            block_end(lines, j + 1, hi, depth - 1)
        }
    } else {
        block_end(lines, j + 1, hi, depth)
    }
}

pub proof fn lemma_block_end(lines: Seq<Seq<char>>, j: int, hi: int, depth: int)
    ensures
        block_end(lines, j, hi, depth) matches Some(k) ==> j <= k < hi && k < lines.len(),
    decreases hi - j,
{
    if 0 <= j < hi && j < lines.len() {
        if ends_open(trim(lines[j])) {
            lemma_block_end(lines, j + 1, hi, depth + 1);
        } else if is_close(trim(lines[j])) {
            lemma_block_end(lines, j + 1, hi, depth - 1);
        } else {
            lemma_block_end(lines, j + 1, hi, depth);
        }
    }
}

pub open spec fn at_line(i: int, k: ParseErrorKind) -> ParseError {
    ParseError { line: (i + 1) as usize, kind: k }
}

/// Puts `pre` in front of the statements of a successful parse.
pub open spec fn after(
    pre: Seq<SLine>,
    r: Result<(Seq<SLine>, Seq<SFun>), ParseError>,
) -> Result<(Seq<SLine>, Seq<SFun>), ParseError> {
    match r {
        Err(e) => Err(e),
        Ok((ls, funs)) => Ok((pre + ls, funs)),
    }
}

/// Parses the lines `i .. hi` as one block, with `funs` registered so far;
/// gives the statements and the functions registered after the block.
pub open spec fn parse_block(funs: Seq<SFun>, lines: Seq<Seq<char>>, i: int, hi: int) -> Result<(Seq<SLine>, Seq<SFun>), ParseError>
    decreases hi - i, 1int,
{
    if i < 0 || i >= hi || i >= lines.len() {
        Ok((Seq::empty(), funs))
    } else {
        let l = trim(lines[i]);
        let sigs = fun_sigs(funs);
        if l.len() == 0 {
            parse_block(funs, lines, i + 1, hi)
        } else if is_close(l) {
            Err(at_line(i, ParseErrorKind::UnmatchedBrace))
        } else if assignment_parts(l) is Some {
            let (name, text) = assignment_parts(l)->0;
            match parse_expr(sigs, text) {
                Err(k) => Err(at_line(i, k)),
                Ok(e) => after(seq![SLine::Assign(name, e)], parse_block(funs, lines, i + 1, hi)),
            }
        } else if if_header(l) is Some || while_header(l) is Some || for_header(l) is Some {
            match block_end(lines, i + 1, hi, 1) {
                None => Err(at_line(i, ParseErrorKind::UnclosedBlock)),
                Some(close) => {
                    proof {
                        lemma_block_end(lines, i + 1, hi, 1);
                    }
                    match parse_construct(funs, lines, i, close) {
                        Err(e) => Err(e),
                        Ok((line, funs2)) => after(seq![line], parse_block(funs2, lines, close + 1, hi)),
                    }
                },
            }
        } else if func_header(l) is Some {
            match block_end(lines, i + 1, hi, 1) {
                None => Err(at_line(i, ParseErrorKind::UnclosedBlock)),
                Some(close) => {
                    proof {
                        lemma_block_end(lines, i + 1, hi, 1);
                    }
                    let (name, ptext) = func_header(l)->0;
                    match params_of(ptext) {
                        None => Err(at_line(i, ParseErrorKind::MalformedHeader)),
                        Some(params) => if crate::syntax::find_sig(sigs, name, 0) is Some {
                            Err(at_line(i, ParseErrorKind::DuplicateFunction))
                        } else {
                            let k = funs.len() as int;
                            let funs1 = funs.push(SFun { name, params, body: Seq::empty() });
                            match parse_block(funs1, lines, i + 1, close) {
                                Err(e) => Err(e),
                                Ok((body, funs2)) => parse_block(
                                    funs2.update(k, SFun { body, ..funs2[k] }),
                                    lines,
                                    close + 1,
                                    hi,
                                ),
                            }
                        },
                    }
                },
            }
        } else {
            match parse_expr(sigs, l) {
                Err(k) => Err(at_line(i, k)),
                Ok(e) => after(seq![SLine::Expr(e)], parse_block(funs, lines, i + 1, hi)),
            }
        }
    }
}

/// Parses the `if`, `while` or `for` construct whose header is line `i` and
/// whose closing `}` is line `close`.
pub open spec fn parse_construct(funs: Seq<SFun>, lines: Seq<Seq<char>>, i: int, close: int) -> Result<(SLine, Seq<SFun>), ParseError>
    decreases close - i, 0int,
{
    if 0 <= i < close {
        match header_parts(fun_sigs(funs), trim(lines[i])) {
            Err(k) => Err(at_line(i, k)),
            Ok(h) => match parse_block(funs, lines, i + 1, close) {
                Err(e) => Err(e),
                Ok((body, funs2)) => Ok((construct_of(h, body), funs2)),
            },
        }
    } else {
        Err(at_line(i, ParseErrorKind::UnclosedBlock))
    }
}

/// The parsed header of an `if`, `while` or `for` line.
pub enum SHeader {
    If(SExpr),
    While(SExpr),
    For(Seq<char>, SExpr, SExpr),
}

pub open spec fn construct_of(h: SHeader, body: Seq<SLine>) -> SLine {
    match h {
        SHeader::If(c) => SLine::If(c, body),
        SHeader::While(c) => SLine::While(c, body),
        SHeader::For(v, a, b) => SLine::For(v, a, b, body),
    }
}

/// Parses the expressions of an `if`, `while` or `for` header.
pub open spec fn header_parts(sigs: Seq<(Seq<char>, nat)>, l: Seq<char>) -> Result<SHeader, ParseErrorKind> {
    if if_header(l) is Some {
        match parse_expr(sigs, if_header(l)->0) {
            Err(k) => Err(k),
            Ok(c) => Ok(SHeader::If(c)),
        }
    } else if while_header(l) is Some {
        match parse_expr(sigs, while_header(l)->0) {
            Err(k) => Err(k),
            Ok(c) => Ok(SHeader::While(c)),
        }
    } else {
        let (var, text) = for_header(l)->0;
        match parse_segs(sigs, split_args(text), 0, text.len() as int) {
            Err(k) => Err(k),
            Ok(bounds) => if bounds.len() == 2 {
                Ok(SHeader::For(var, bounds[0], bounds[1]))
            } else {
                Err(ParseErrorKind::Arity)
            },
        }
    }
}

} // verus!
verus! {

pub open spec fn text_lines(v: Vec<Vec<char>>) -> Seq<Seq<char>> {
    v@.map_values(|l: Vec<char>| l@)
}

pub proof fn lemma_sigs(reg: Seq<(Seq<char>, UserFunction)>)
    ensures
        fun_sigs(table_view(reg)) == crate::user_function::sigs_of(reg),
{
    assert(fun_sigs(table_view(reg)) =~= crate::user_function::sigs_of(reg));
}

pub proof fn lemma_lines_view(v: Vec<Line>, i: int)
    requires
        0 <= i <= v.len(),
    ensures
        lines_view(v, i) == v@.skip(i).map_values(|l: Line| line_view(l)),
    decreases v.len() - i,
{
    if i < v.len() {
        lemma_lines_view(v, i + 1);
    }
    assert(lines_view(v, i) =~= v@.skip(i).map_values(|l: Line| line_view(l)));
}

pub proof fn lemma_program_view(p: Program)
    ensures
        program_view(p) == p.program@.map_values(|l: Line| line_view(l)),
{
    lemma_lines_view(p.program, 0);
    assert(p.program@.skip(0) =~= p.program@);
}

pub fn ident_end_at(l: &Vec<char>, i: usize) -> (r: usize)
    requires
        i <= l.len(),
    ensures
        r == ident_end(l@, i as int),
        i <= r <= l.len(),
{
    let mut j = i;
    while j < l.len() && (('a' <= l[j] && l[j] <= 'z') || l[j] == '_')
        invariant
            i <= j <= l.len(),
            ident_end(l@, i as int) == ident_end(l@, j as int),
        decreases l.len() - j,
    {
        j = j + 1;
    }
    j
}

fn opens_block_exec(l: &Vec<char>) -> (r: bool)
    ensures
        r == opens_block(l@),
{
    let n = l.len();
    n >= 2 && l[n - 2] == ' ' && l[n - 1] == '{'
}

/// Where the name of an assignment `name: expr` ends.
pub fn assignment_split(l: &Vec<char>) -> (r: Option<usize>)
    ensures
        match r {
            Some(n) => n + 2 <= l.len() && assignment_parts(l@) == Some((l@.take(n as int), l@.skip(n + 2))),
            None => assignment_parts(l@) is None,
        },
{
    let n = ident_end_at(l, 0);
    if n >= 1 && l.len() - n >= 3 && l[n] == ':' && l[n + 1] == ' ' {
        Some(n)
    } else {
        None
    }
}

pub fn is_if_header(l: &Vec<char>) -> (r: bool)
    ensures
        r == (if_header(l@) is Some),
{
    l.len() >= 6 && l[0] == 'i' && l[1] == 'f' && l[2] == ' ' && opens_block_exec(l)
}

pub fn is_while_header(l: &Vec<char>) -> (r: bool)
    ensures
        r == (while_header(l@) is Some),
{
    l.len() >= 9 && l[0] == 'w' && l[1] == 'h' && l[2] == 'i' && l[3] == 'l' && l[4] == 'e' && l[5]
        == ' ' && opens_block_exec(l)
}

/// Where the loop variable of a `for` header ends.
pub fn for_split(l: &Vec<char>) -> (r: Option<usize>)
    ensures
        match r {
            Some(n) => 4 < n && n + 3 <= l.len() && for_header(l@) == Some(
                (l@.subrange(4, n as int), l@.subrange(n + 1, l.len() - 2)),
            ),
            None => for_header(l@) is None,
        },
{
    if l.len() >= 4 && l[0] == 'f' && l[1] == 'o' && l[2] == 'r' && l[3] == ' ' {
        let n = ident_end_at(l, 4);
        if n > 4 && l.len() - n >= 3 && l[n] == ' ' && opens_block_exec(l) {
            return Some(n);
        }
    }
    None
}

/// Where the name of a `func` header ends.
pub fn func_split(l: &Vec<char>) -> (r: Option<usize>)
    ensures
        match r {
            Some(n) => 5 < n && n + 4 <= l.len() && func_header(l@) == Some(
                (l@.subrange(5, n as int), l@.subrange(n + 1, l.len() - 2)),
            ),
            None => func_header(l@) is None,
        },
{
    if l.len() >= 5 && l[0] == 'f' && l[1] == 'u' && l[2] == 'n' && l[3] == 'c' && l[4] == ' ' {
        let n = ident_end_at(l, 5);
        if n > 5 && l.len() - n >= 4 && l[n] == ' ' && opens_block_exec(l) {
            return Some(n);
        }
    }
    None
}

/// The parameter names of `(a b ...)`.
pub fn parse_params(m: &Vec<char>) -> (r: Option<Vec<String>>)
    ensures
        match r {
            Some(v) => params_of(m@) == Some(names_view(v)),
            None => params_of(m@) is None,
        },
{
    let n = m.len();
    if !(n >= 2 && m[0] == '(' && m[n - 1] == ')') {
        return None;
    }
    let inner = crate::text::slice(m, 1, n - 1);
    let mut names: Vec<String> = Vec::new();
    if inner.len() == 0 {
        assert(names_view(names) =~= Seq::<Seq<char>>::empty());
        return Some(names);
    }
    let ghost ws = split_on(inner@, ' ', 0, 0);
    let mut start: usize = 0;
    let mut i: usize = 0;
    while i < inner.len()
        invariant
            start <= i <= inner.len(),
            n == m.len(),
            n >= 2 && m@[0] == '(' && m@[n - 1] == ')',
            inner@ == m@.subrange(1, n - 1),
            inner.len() > 0,
            ws == split_on(inner@, ' ', 0, 0),
            ws == names_view(names) + split_on(inner@, ' ', i as int, start as int),
            forall|k: int| 0 <= k < names@.len() ==> (#[trigger] names@[k]@).len() > 0,
        decreases inner.len() - i,
    {
        if inner[i] == ' ' {
            let ghost tail = split_on(inner@, ' ', i + 1, i + 1);
            assert(split_on(inner@, ' ', i as int, start as int) == seq![inner@.subrange(start as int, i as int)] + tail);
            if start == i {
                assert(ws[names@.len() as int] == inner@.subrange(start as int, i as int));
                assert(ws[names@.len() as int].len() == 0);
                assert(!(forall|k: int| 0 <= k < ws.len() ==> (#[trigger] ws[k]).len() > 0));
                return None;
            }
            let w = crate::text::slice(&inner, start, i);
            names.push(crate::text::string_of(&w));
            assert(names_view(names) =~= names_view(names).drop_last().push(w@));
            assert(ws =~= names_view(names) + tail);
            start = i + 1;
        } else {
            assert(split_on(inner@, ' ', i as int, start as int) == split_on(inner@, ' ', i + 1, start as int));
        }
        i = i + 1;
    }
    assert(split_on(inner@, ' ', i as int, start as int) == seq![inner@.subrange(start as int, i as int)]);
    if start == i {
        assert(ws[names@.len() as int].len() == 0);
        assert(!(forall|k: int| 0 <= k < ws.len() ==> (#[trigger] ws[k]).len() > 0));
        return None;
    }
    let w = crate::text::slice(&inner, start, i);
    names.push(crate::text::string_of(&w));
    assert(names_view(names) =~= ws);
    Some(names)
}

/// The line in `start .. hi` that closes the block opened just before `start`.
pub fn get_sub_program(lines: &Vec<Vec<char>>, start: usize, hi: usize) -> (r: Option<usize>)
    requires
        hi <= lines.len(),
    ensures
        match r {
            Some(k) => block_end(text_lines(*lines), start as int, hi as int, 1) == Some(k as int),
            None => block_end(text_lines(*lines), start as int, hi as int, 1) is None,
        },
{
    let mut depth: u128 = 1;
    let mut j: usize = start;
    while j < hi
        invariant
            start <= j || j == start,
            hi <= lines.len(),
            1 <= depth <= j - start + 1,
            block_end(text_lines(*lines), start as int, hi as int, 1) == block_end(
                text_lines(*lines),
                j as int,
                hi as int,
                depth as int,
            ),
        decreases hi - j,
    {
        let l = crate::text::trim_chars(&lines[j]);
        assert(text_lines(*lines)[j as int] == lines@[j as int]@);
        if l.len() >= 1 && l[l.len() - 1] == '{' {
            depth = depth + 1;
        } else if l.len() == 1 && l[0] == '}' {
            if depth == 1 {
                return Some(j);
            }
            depth = depth - 1;
        }
        j = j + 1;
    }
    None
}

} // verus!
