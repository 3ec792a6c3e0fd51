//! The abstract syntax as mathematical values, and the grammar of expressions.
//!
//! An expression is written in prefix form. After trimming and dropping one
//! pair of enclosing parentheses it is: an integer literal; an operator symbol
//! followed by its operands; the name of a registered function followed by its
//! arguments; or else a variable name (the whole remaining text). Operands are
//! split at the spaces that lie outside every parenthesis.
use vstd::prelude::*;
use crate::built_in_functions::{BuiltIns, Operator};
use crate::expression::Expression;

verus! {

/// An expression as a mathematical value.
pub enum SExpr {
    Literal(i64),
    Variable(Seq<char>),
    Binary(Operator, Box<SExpr>, Box<SExpr>),
    Ternary(Box<SExpr>, Box<SExpr>, Box<SExpr>),
    Not(Box<SExpr>),
    Print(Seq<SExpr>),
    Printa(Seq<SExpr>),
    Call(Seq<char>, Seq<SExpr>),
}

/// The operators as they are written.
#[derive(Debug, Clone, Copy, PartialEq, Eq, Structural)]
pub enum OpKind {
    Bin(Operator),
    Ternary,
    Not,
    Print,
    Printa,
}

pub open spec fn expr_view(e: Expression) -> SExpr
    decreases e, 0int,
{
    match e {
        Expression::Literal(v) => SExpr::Literal(v),
        Expression::Variable(n) => SExpr::Variable(n@),
        Expression::BuiltInFunction(op) => builtin_view(*op),
        Expression::UserFunction(n, args) => SExpr::Call(n@, list_view(args, 0)),
    }
}

pub open spec fn builtin_view(op: BuiltIns) -> SExpr
    decreases op, 0int,
{
    match op {
        BuiltIns::Binary(o, x, y) => SExpr::Binary(o, Box::new(expr_view(x)), Box::new(expr_view(y))),
        BuiltIns::Ternary(x, y, z) => SExpr::Ternary(
            Box::new(expr_view(x)),
            Box::new(expr_view(y)),
            Box::new(expr_view(z)),
        ),
        BuiltIns::Not(x) => SExpr::Not(Box::new(expr_view(x))),
        BuiltIns::Print(args) => SExpr::Print(list_view(args, 0)),
        BuiltIns::Printa(args) => SExpr::Printa(list_view(args, 0)),
    }
}

/// The views of `args[i..]`.
pub open spec fn list_view(args: Vec<Expression>, i: int) -> Seq<SExpr>
    decreases args, args.len() - i,
{
    if i < 0 || i >= args.len() {
        Seq::empty()
    } else {
        seq![expr_view(args[i])] + list_view(args, i + 1)
    }
}

/// Unicode white space, as `char::is_whitespace` has it.
pub open spec fn is_ws(c: char) -> bool {
    ||| c == ' '
    ||| ('\t' <= c <= '\r')
    ||| c == '\u{85}'
    ||| c == '\u{a0}'
    ||| c == '\u{1680}'
    ||| ('\u{2000}' <= c <= '\u{200a}')
    ||| c == '\u{2028}'
    ||| c == '\u{2029}'
    ||| c == '\u{202f}'
    ||| c == '\u{205f}'
    ||| c == '\u{3000}'
}

pub open spec fn trim_start(s: Seq<char>) -> Seq<char>
    decreases s.len(),
{
    if s.len() > 0 && is_ws(s[0]) {
        trim_start(s.drop_first())
    } else {
        s
    }
}

pub open spec fn trim_end(s: Seq<char>) -> Seq<char>
    decreases s.len(),
{
    if s.len() > 0 && is_ws(s.last()) {
        trim_end(s.drop_last())
    } else {
        s
    }
}

/// `s` without white space at either end.
pub open spec fn trim(s: Seq<char>) -> Seq<char> {
    trim_end(trim_start(s))
}

/// The trimmed text, with one pair of enclosing parentheses dropped.
pub open spec fn strip_brackets(s: Seq<char>) -> Seq<char> {
    let t = trim(s);
    if t.len() >= 2 && t[0] == '(' && t.last() == ')' {
        trim(t.subrange(1, t.len() - 1))
    } else {
        t
    }
}

pub open spec fn is_digit(c: char) -> bool {
    '0' <= c <= '9'
}

pub open spec fn all_digits(d: Seq<char>) -> bool {
    forall|i: int| 0 <= i < d.len() ==> is_digit(#[trigger] d[i])
}

/// An optional `-` followed by one or more ASCII digits.
pub open spec fn is_literal(t: Seq<char>) -> bool {
    if t.len() > 0 && t[0] == '-' {
        t.len() >= 2 && all_digits(t.skip(1))
    } else {
        t.len() >= 1 && all_digits(t)
    }
}

pub open spec fn digits_value(d: Seq<char>) -> int
    decreases d.len(),
{
    if d.len() == 0 {
        0
    } else {
        digits_value(d.drop_last()) * 10 + (d.last() as int - '0' as int)
    }
}

/// The integer a literal denotes.
pub open spec fn literal_int(t: Seq<char>) -> int {
    if t.len() > 0 && t[0] == '-' {
        -digits_value(t.skip(1))
    } else {
        digits_value(t)
    }
}

/// The index of the first space at or after `i`, or the length.
pub open spec fn first_space(t: Seq<char>, i: int) -> int
    decreases t.len() - i,
{
    if i < 0 || i >= t.len() {
        t.len() as int
    } else if t[i] == ' ' {
        i
    } else {
        first_space(t, i + 1)
    }
}

/// The operator a symbol names.
pub open spec fn operator_of(w: Seq<char>) -> Option<OpKind> {
    if w.len() == 1 {
        if w[0] == '+' {
            Some(OpKind::Bin(Operator::Add))
        } else if w[0] == '-' {
            Some(OpKind::Bin(Operator::Sub))
        } else if w[0] == '*' {
            Some(OpKind::Bin(Operator::Mul))
        } else if w[0] == '/' {
            Some(OpKind::Bin(Operator::Div))
        } else if w[0] == '%' {
            Some(OpKind::Bin(Operator::Mod))
        } else if w[0] == '<' {
            Some(OpKind::Bin(Operator::Lt))
        } else if w[0] == '>' {
            Some(OpKind::Bin(Operator::Gt))
        } else if w[0] == '?' {
            Some(OpKind::Ternary)
        } else if w[0] == '!' {
            Some(OpKind::Not)
        } else {
            None
        }
    } else if w.len() == 2 && w[1] == '=' {
        if w[0] == '=' {
            Some(OpKind::Bin(Operator::Eq))
        } else if w[0] == '!' {
            Some(OpKind::Bin(Operator::Neq))
        } else if w[0] == '<' {
            Some(OpKind::Bin(Operator::Le))
        } else if w[0] == '>' {
            Some(OpKind::Bin(Operator::Ge))
        } else {
            None
        }
    } else if (w.len() == 5 || w.len() == 6) && w[0] == 'p' && w[1] == 'r' && w[2] == 'i' && w[3]
        == 'n' && w[4] == 't' {
        if w.len() == 5 {
            Some(OpKind::Print)
        } else if w[5] == 'a' {
            Some(OpKind::Printa)
        } else {
            None
        }
    } else {
        None
    }
}

/// The operands of `s`, scanned from `i` with the current segment starting at
/// `start` and `depth` open parentheses: a space outside every parenthesis ends
/// a segment, and the next segment starts at that space.
pub open spec fn split_scan(s: Seq<char>, i: int, start: int, depth: int) -> Seq<Seq<char>>
    decreases s.len() - i,
{
    if i < 0 || i >= s.len() {
        if 0 <= start < s.len() {
            seq![s.subrange(start, s.len() as int)]
        } else {
            Seq::empty()
        }
    } else if s[i] == '(' {
        split_scan(s, i + 1, start, depth + 1)
    } else if s[i] == ')' {
        split_scan(s, i + 1, start, depth - 1)
    } else if s[i] == ' ' && depth == 0 {
        seq![s.subrange(start, i)] + split_scan(s, i + 1, i, depth)
    } else {
        split_scan(s, i + 1, start, depth)
    }
}

pub open spec fn split_args(s: Seq<char>) -> Seq<Seq<char>> {
    split_scan(s, 0, 0, 0)
}

pub proof fn lemma_split_scan_short(s: Seq<char>, i: int, start: int, depth: int)
    requires
        0 <= start <= i,
        start <= s.len(),
    ensures
        forall|k: int|
            0 <= k < split_scan(s, i, start, depth).len() ==> (#[trigger] split_scan(
                s,
                i,
                start,
                depth,
            )[k]).len() <= s.len(),
    decreases s.len() - i,
{
    if i < 0 || i >= s.len() {
        if 0 <= start < s.len() {
            assert(split_scan(s, i, start, depth)[0] == s.subrange(start, s.len() as int));
        }
    } else if s[i] == '(' {
        lemma_split_scan_short(s, i + 1, start, depth + 1);
        assert(split_scan(s, i, start, depth) == split_scan(s, i + 1, start, depth + 1));
    } else if s[i] == ')' {
        lemma_split_scan_short(s, i + 1, start, depth - 1);
        assert(split_scan(s, i, start, depth) == split_scan(s, i + 1, start, depth - 1));
    } else if s[i] == ' ' && depth == 0 {
        lemma_split_scan_short(s, i + 1, i, depth);
        let rest = split_scan(s, i + 1, i, depth);
        assert forall|k: int| 0 <= k < split_scan(s, i, start, depth).len() implies (
        #[trigger] split_scan(s, i, start, depth)[k]).len() <= s.len() by {
            if k > 0 {
                assert(split_scan(s, i, start, depth)[k] == rest[k - 1]);
            } else {
                assert(split_scan(s, i, start, depth)[0] == s.subrange(start, i));
            }
        }
    } else {
        lemma_split_scan_short(s, i + 1, start, depth);
        assert(split_scan(s, i, start, depth) == split_scan(s, i + 1, start, depth));
    }
}

pub proof fn lemma_trim_start(s: Seq<char>)
    ensures
        trim_start(s).len() <= s.len(),
        trim_start(s).len() > 0 ==> !is_ws(trim_start(s)[0]),
        trim_start(s) == s.skip(s.len() - trim_start(s).len()),
    decreases s.len(),
{
    if s.len() > 0 && is_ws(s[0]) {
        lemma_trim_start(s.drop_first());
        assert(s.drop_first().skip(s.drop_first().len() - trim_start(s.drop_first()).len())
            =~= s.skip(s.len() - trim_start(s).len()));
    } else {
        assert(s.skip(0) =~= s);
    }
}

pub proof fn lemma_trim_end(s: Seq<char>)
    ensures
        trim_end(s).len() <= s.len(),
        trim_end(s) == s.take(trim_end(s).len() as int),
        trim_end(s).len() > 0 ==> trim_end(s)[0] == s[0],
    decreases s.len(),
{
    if s.len() > 0 && is_ws(s.last()) {
        lemma_trim_end(s.drop_last());
        assert(s.drop_last().take(trim_end(s.drop_last()).len() as int) =~= s.take(
            trim_end(s).len() as int,
        ));
    } else {
        assert(s.take(s.len() as int) =~= s);
    }
}

pub proof fn lemma_trim(s: Seq<char>)
    ensures
        trim(s).len() <= s.len(),
        trim(s).len() > 0 ==> !is_ws(trim(s)[0]),
{
    lemma_trim_start(s);
    lemma_trim_end(trim_start(s));
}

pub proof fn lemma_strip_brackets(s: Seq<char>)
    ensures
        strip_brackets(s).len() <= s.len(),
        strip_brackets(s).len() > 0 ==> !is_ws(strip_brackets(s)[0]),
{
    lemma_trim(s);
    let t = trim(s);
    if t.len() >= 2 && t[0] == '(' && t.last() == ')' {
        lemma_trim(t.subrange(1, t.len() - 1));
    }
}

/// Registered functions as the parser sees them: name and parameter count.
pub open spec fn find_sig(sigs: Seq<(Seq<char>, nat)>, name: Seq<char>, k: int) -> Option<int>
    decreases sigs.len() - k,
{
    if k < 0 || k >= sigs.len() {
        None
    } else if sigs[k].0 == name {
        Some(k)
    } else {
        find_sig(sigs, name, k + 1)
    }
}

/// Builds an operator call from its parsed operands, checking the arity.
pub open spec fn make_builtin(k: OpKind, args: Seq<SExpr>) -> Result<SExpr, crate::error::ParseErrorKind> {
    match k {
        OpKind::Bin(o) => if args.len() == 2 {
            Ok(SExpr::Binary(o, Box::new(args[0]), Box::new(args[1])))
        } else {
            Err(crate::error::ParseErrorKind::Arity)
        },
        OpKind::Ternary => if args.len() == 3 {
            Ok(SExpr::Ternary(Box::new(args[0]), Box::new(args[1]), Box::new(args[2])))
        } else {
            Err(crate::error::ParseErrorKind::Arity)
        },
        OpKind::Not => if args.len() == 1 {
            Ok(SExpr::Not(Box::new(args[0])))
        } else {
            Err(crate::error::ParseErrorKind::Arity)
        },
        OpKind::Print => Ok(SExpr::Print(args)),
        OpKind::Printa => Ok(SExpr::Printa(args)),
    }
}

/// The head word of a stripped expression and the trimmed text after it.
pub open spec fn head_of(t: Seq<char>) -> Seq<char> {
    t.take(first_space(t, 0))
}

pub open spec fn rest_of(t: Seq<char>) -> Seq<char> {
    trim(t.skip(first_space(t, 0)))
}

pub proof fn lemma_first_space(t: Seq<char>, i: int)
    requires
        0 <= i <= t.len(),
    ensures
        i <= first_space(t, i) <= t.len(),
        first_space(t, i) < t.len() ==> t[first_space(t, i)] == ' ',
        forall|j: int| i <= j < first_space(t, i) ==> t[j] != ' ',
    decreases t.len() - i,
{
    if i < t.len() && t[i] != ' ' {
        lemma_first_space(t, i + 1);
    }
}

pub proof fn lemma_rest_shorter(s: Seq<char>)
    requires
        strip_brackets(s).len() > 0,
    ensures
        rest_of(strip_brackets(s)).len() < s.len(),
        head_of(strip_brackets(s)).len() > 0,
{
    let t = strip_brackets(s);
    lemma_strip_brackets(s);
    lemma_first_space(t, 0);
    lemma_trim(t.skip(first_space(t, 0)));
}

/// Parses an expression against the registered function signatures.
pub open spec fn parse_expr(sigs: Seq<(Seq<char>, nat)>, s: Seq<char>) -> Result<SExpr, crate::error::ParseErrorKind>
    decreases s.len(), 0int, 0int,
{
    let t = strip_brackets(s);
    if t.len() == 0 {
        Err(crate::error::ParseErrorKind::EmptyExpression)
    } else if is_literal(t) {
        let v = literal_int(t);
        if i64::MIN <= v <= i64::MAX {
            Ok(SExpr::Literal(v as i64))
        } else {
            Err(crate::error::ParseErrorKind::LiteralOutOfRange)
        }
    } else {
        let head = head_of(t);
        let rest = rest_of(t);
        proof {
            lemma_rest_shorter(s);
            lemma_split_scan_short(rest, 0, 0, 0);
        }
        match operator_of(head) {
            Some(k) => parse_operator(sigs, k, rest),
            None => match find_sig(sigs, head, 0) {
                Some(n) => match parse_segs(sigs, split_args(rest), 0, rest.len() as int) {
                    Err(e) => Err(e),
                    Ok(args) => if args.len() == sigs[n].1 {
                        Ok(SExpr::Call(head, args))
                    } else {
                        Err(crate::error::ParseErrorKind::Arity)
                    },
                },
                None => Ok(SExpr::Variable(t)),
            },
        }
    }
}

/// Parses the operands in `rest` and applies the operator `k` to them.
pub open spec fn parse_operator(sigs: Seq<(Seq<char>, nat)>, k: OpKind, rest: Seq<char>) -> Result<SExpr, crate::error::ParseErrorKind>
    decreases rest.len(), 2int, 0int,
{
    proof {
        lemma_split_scan_short(rest, 0, 0, 0);
    }
    match parse_segs(sigs, split_args(rest), 0, rest.len() as int) {
        Err(e) => Err(e),
        Ok(args) => make_builtin(k, args),
    }
}

/// Parses `segs[k..]`, each at most `bound` long, stopping at the first failure.
pub open spec fn parse_segs(
    sigs: Seq<(Seq<char>, nat)>,
    segs: Seq<Seq<char>>,
    k: int,
    bound: int,
) -> Result<Seq<SExpr>, crate::error::ParseErrorKind>
    decreases bound, 1int, segs.len() - k when (forall|j: int| 0 <= j < segs.len() ==> (#[trigger] segs[j]).len() <= bound)
{
    if k < 0 || k >= segs.len() {
        Ok(Seq::empty())
    } else {
        match parse_expr(sigs, segs[k]) {
            Err(e) => Err(e),
            Ok(a) => match parse_segs(sigs, segs, k + 1, bound) {
                Err(e) => Err(e),
                Ok(rest) => Ok(seq![a] + rest),
            },
        }
    }
}

pub proof fn lemma_list_view(args: Vec<Expression>, i: int)
    requires
        0 <= i <= args.len(),
    ensures
        list_view(args, i) == args@.skip(i).map_values(|e: Expression| expr_view(e)),
    decreases args.len() - i,
{
    if i < args.len() {
        lemma_list_view(args, i + 1);
        assert(list_view(args, i) =~= args@.skip(i).map_values(|e: Expression| expr_view(e)));
    } else {
        assert(list_view(args, i) =~= args@.skip(i).map_values(|e: Expression| expr_view(e)));
    }
}

pub proof fn lemma_list_view_all(args: Vec<Expression>)
    ensures
        list_view(args, 0) == args@.map_values(|e: Expression| expr_view(e)),
{
    lemma_list_view(args, 0);
    assert(args@.skip(0) =~= args@);
}

} // verus!
