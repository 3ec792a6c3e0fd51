//! Writing expressions back as text, and reading that text again.
use vstd::prelude::*;
use crate::built_in_functions::Operator;
use crate::syntax::{
    all_digits, digits_value, find_sig, is_digit, is_literal, is_ws, literal_int, operator_of,
    parse_expr, split_scan, split_args, trim, trim_end, trim_start, OpKind, SExpr,
};
use crate::text::{decimal, decimal_digits, digit_char};

verus! {

pub open spec fn op_symbol(k: OpKind) -> Seq<char> {
    match k {
        OpKind::Bin(o) => match o {
            Operator::Add => seq!['+'],
            Operator::Sub => seq!['-'],
            Operator::Mul => seq!['*'],
            Operator::Div => seq!['/'],
            Operator::Mod => seq!['%'],
            Operator::Eq => seq!['=', '='],
            Operator::Neq => seq!['!', '='],
            Operator::Lt => seq!['<'],
            Operator::Gt => seq!['>'],
            Operator::Le => seq!['<', '='],
            Operator::Ge => seq!['>', '='],
        },
        OpKind::Ternary => seq!['?'],
        OpKind::Not => seq!['!'],
        OpKind::Print => seq!['p', 'r', 'i', 'n', 't'],
        OpKind::Printa => seq!['p', 'r', 'i', 'n', 't', 'a'],
    }
}

/// Texts joined by single spaces.
pub open spec fn join_texts(ts: Seq<Seq<char>>) -> Seq<char>
    decreases ts.len(),
{
    if ts.len() == 0 {
        Seq::empty()
    } else if ts.len() == 1 {
        ts[0]
    } else {
        ts[0] + seq![' '] + join_texts(ts.drop_first())
    }
}

/// `(word a b ...)`.
pub open spec fn call_text(word: Seq<char>, ts: Seq<Seq<char>>) -> Seq<char> {
    if ts.len() == 0 {
        seq!['('] + word + seq![')']
    } else {
        seq!['('] + word + seq![' '] + join_texts(ts) + seq![')']
    }
}

/// The text of an expression in prefix form.
pub open spec fn show(e: SExpr) -> Seq<char>
    decreases e, 0int,
{
    match e {
        SExpr::Literal(v) => decimal(v as int),
        SExpr::Variable(n) => n,
        SExpr::Binary(o, x, y) => call_text(op_symbol(OpKind::Bin(o)), seq![show(*x), show(*y)]),
        SExpr::Ternary(x, y, z) => call_text(op_symbol(OpKind::Ternary), seq![show(*x), show(*y), show(*z)]),
        SExpr::Not(x) => call_text(op_symbol(OpKind::Not), seq![show(*x)]),
        SExpr::Print(args) => call_text(op_symbol(OpKind::Print), show_all(args, 0)),
        SExpr::Printa(args) => call_text(op_symbol(OpKind::Printa), show_all(args, 0)),
        SExpr::Call(n, args) => call_text(n, show_all(args, 0)),
    }
}

pub open spec fn show_all(args: Seq<SExpr>, i: int) -> Seq<Seq<char>>
    decreases args, args.len() - i,
{
    if i < 0 || i >= args.len() {
        Seq::empty()
    } else {
        seq![show(args[i])] + show_all(args, i + 1)
    }
}

pub open spec fn paren_delta(c: char) -> int {
    if c == '(' {
        1
    } else if c == ')' {
        -1
    } else {
        0
    }
}

/// Open minus closed parentheses in `s`.
pub open spec fn depth_of(s: Seq<char>) -> int
    decreases s.len(),
{
    if s.len() == 0 {
        0
    } else {
        depth_of(s.drop_last()) + paren_delta(s.last())
    }
}

/// A piece of text that the operand splitter keeps whole: no white space at
/// its ends, balanced parentheses that never close more than they opened, and
/// spaces only inside parentheses.
pub open spec fn atom(a: Seq<char>) -> bool {
    &&& a.len() >= 1
    &&& !is_ws(a[0])
    &&& !is_ws(a.last())
    &&& depth_of(a) == 0
    &&& forall|k: int| 0 <= k <= a.len() ==> depth_of(#[trigger] a.take(k)) >= 0
    &&& forall|k: int| 0 <= k < a.len() && #[trigger] a[k] == ' ' ==> depth_of(a.take(k)) > 0
}

proof fn lemma_take_push(a: Seq<char>, k: int)
    requires
        0 <= k < a.len(),
    ensures
        depth_of(a.take(k + 1)) == depth_of(a.take(k)) + paren_delta(a[k]),
{
    assert(a.take(k + 1).drop_last() =~= a.take(k));
}

proof fn lemma_scan_atom(s: Seq<char>, i: int, start: int, a: Seq<char>, k: int)
    requires
        atom(a),
        0 <= i,
        i + a.len() <= s.len(),
        s.subrange(i, i + a.len()) == a,
        0 <= k <= a.len(),
    ensures
        split_scan(s, i + k, start, depth_of(a.take(k))) == split_scan(s, i + a.len(), start, 0),
    decreases a.len() - k,
{
    if k < a.len() {
        lemma_take_push(a, k);
        assert(s[i + k] == a[k]);
        lemma_scan_atom(s, i, start, a, k + 1);
        if a[k] == ' ' {
            assert(depth_of(a.take(k)) > 0);
        }
    } else {
        assert(a.take(k) =~= a);
    }
}

pub open spec fn spaced(us: Seq<Seq<char>>) -> Seq<Seq<char>>
    decreases us.len(),
{
    if us.len() == 0 {
        Seq::empty()
    } else {
        seq![seq![' '] + us[0]] + spaced(us.drop_first())
    }
}

pub open spec fn all_atoms(ts: Seq<Seq<char>>) -> bool {
    forall|j: int| 0 <= j < ts.len() ==> atom(#[trigger] ts[j])
}

proof fn lemma_split_join(s: Seq<char>, i: int, start: int, ts: Seq<Seq<char>>)
    requires
        ts.len() >= 1,
        all_atoms(ts),
        0 <= start <= i,
        s.len() == i + join_texts(ts).len(),
        s.subrange(i, s.len() as int) == join_texts(ts),
    ensures
        split_scan(s, i, start, 0) == seq![s.subrange(start, i + ts[0].len())] + spaced(ts.drop_first()),
    decreases ts.len(),
{
    let t0 = ts[0];
    assert(atom(t0));
    if ts.len() == 1 {
        assert(join_texts(ts) == t0);
        assert(s.subrange(i, i + t0.len()) =~= t0);
        lemma_scan_atom(s, i, start, t0, 0);
        assert(t0.take(0) =~= Seq::<char>::empty());
        assert(spaced(ts.drop_first()) =~= Seq::<Seq<char>>::empty());
        assert(split_scan(s, i + t0.len(), start, 0) == seq![s.subrange(start, s.len() as int)]);
        assert(seq![s.subrange(start, i + t0.len())] + Seq::<Seq<char>>::empty() =~= seq![s.subrange(start, s.len() as int)]);
    } else {
        let rest = ts.drop_first();
        assert(join_texts(ts) == t0 + seq![' '] + join_texts(rest));
        assert(s.subrange(i, i + t0.len()) =~= t0) by {
            assert(s.subrange(i, i + t0.len()) =~= (t0 + seq![' '] + join_texts(rest)).subrange(0, t0.len() as int));
        }
        assert(s[i + t0.len()] == ' ') by {
            assert(s[i + t0.len()] == (t0 + seq![' '] + join_texts(rest))[t0.len() as int]);
        }
        lemma_scan_atom(s, i, start, t0, 0);
        assert(t0.take(0) =~= Seq::<char>::empty());
        let j = i + t0.len() + 1;
        assert(s.subrange(j, s.len() as int) =~= join_texts(rest)) by {
            assert(s.subrange(j, s.len() as int) =~= (t0 + seq![' '] + join_texts(rest)).subrange(t0.len() as int + 1, join_texts(ts).len() as int));
        }
        assert forall|q: int| 0 <= q < rest.len() implies atom(#[trigger] rest[q]) by {
            assert(rest[q] == ts[q + 1]);
        }
        lemma_split_join(s, j, i + t0.len(), rest);
        assert(s.subrange(i + t0.len(), j + rest[0].len()) =~= seq![' '] + rest[0]) by {
            assert(s.subrange(j, j + rest[0].len()) =~= rest[0]) by {
                if rest.len() == 1 {
                    assert(join_texts(rest) == rest[0]);
                } else {
                    assert(join_texts(rest) == rest[0] + seq![' '] + join_texts(rest.drop_first()));
                    assert(s.subrange(j, j + rest[0].len()) =~= join_texts(rest).subrange(0, rest[0].len() as int));
                }
            }
        }
        assert(spaced(rest) == seq![seq![' '] + rest[0]] + spaced(rest.drop_first()));
        assert(split_scan(s, i + t0.len(), start, 0) == seq![s.subrange(start, i + t0.len())] + split_scan(
            s,
            j,
            i + t0.len(),
            0,
        ));
        assert(seq![s.subrange(start, i + t0.len())] + (seq![seq![' '] + rest[0]] + spaced(rest.drop_first()))
            =~= seq![s.subrange(start, i + t0.len())] + spaced(rest));
    }
}

/// Never closes more parentheses than it opened, and closes them all.
pub open spec fn balanced(s: Seq<char>) -> bool {
    &&& depth_of(s) == 0
    &&& forall|k: int| 0 <= k <= s.len() ==> depth_of(#[trigger] s.take(k)) >= 0
}

/// No parenthesis and no white space.
pub open spec fn plain(w: Seq<char>) -> bool {
    forall|k: int| 0 <= k < w.len() ==> #[trigger] w[k] != '(' && w[k] != ')' && !is_ws(w[k])
}

proof fn lemma_depth_concat(a: Seq<char>, b: Seq<char>)
    ensures
        depth_of(a + b) == depth_of(a) + depth_of(b),
    decreases b.len(),
{
    if b.len() == 0 {
        assert(a + b =~= a);
    } else {
        assert((a + b).drop_last() =~= a + b.drop_last());
        lemma_depth_concat(a, b.drop_last());
    }
}

proof fn lemma_plain_depth(w: Seq<char>)
    requires
        plain(w),
    ensures
        depth_of(w) == 0,
        balanced(w),
    decreases w.len(),
{
    if w.len() > 0 {
        assert(plain(w.drop_last()));
        lemma_plain_depth(w.drop_last());
    }
    assert forall|k: int| 0 <= k <= w.len() implies depth_of(#[trigger] w.take(k)) >= 0 by {
        assert(plain(w.take(k)));
        if k < w.len() {
            lemma_plain_depth(w.take(k));
        } else {
            assert(w.take(k) =~= w);
        }
    }
}

proof fn lemma_balanced_concat(a: Seq<char>, b: Seq<char>)
    requires
        balanced(a),
        balanced(b),
    ensures
        balanced(a + b),
{
    lemma_depth_concat(a, b);
    assert forall|k: int| 0 <= k <= (a + b).len() implies depth_of(#[trigger] (a + b).take(k)) >= 0 by {
        if k <= a.len() {
            assert((a + b).take(k) =~= a.take(k));
        } else {
            assert((a + b).take(k) =~= a + b.take(k - a.len()));
            lemma_depth_concat(a, b.take(k - a.len()));
            assert(a.take(a.len() as int) =~= a);
        }
    }
}

proof fn lemma_atom_balanced(a: Seq<char>)
    requires
        atom(a),
    ensures
        balanced(a),
{
}

proof fn lemma_space_balanced()
    ensures
        balanced(seq![' ']),
{
    lemma_plain_depth(Seq::<char>::empty());
    assert(seq![' '].drop_last() =~= Seq::<char>::empty());
    assert forall|k: int| 0 <= k <= 1 implies depth_of(#[trigger] seq![' '].take(k)) >= 0 by {
        if k == 0 {
            assert(seq![' '].take(k) =~= Seq::<char>::empty());
        } else {
            assert(seq![' '].take(k) =~= seq![' ']);
        }
    }
}

proof fn lemma_join_balanced(ts: Seq<Seq<char>>)
    requires
        all_atoms(ts),
    ensures
        balanced(join_texts(ts)),
    decreases ts.len(),
{
    if ts.len() == 0 {
        lemma_plain_depth(Seq::<char>::empty());
    } else if ts.len() == 1 {
        assert(atom(ts[0]));
    } else {
        let rest = ts.drop_first();
        assert forall|q: int| 0 <= q < rest.len() implies atom(#[trigger] rest[q]) by {
            assert(rest[q] == ts[q + 1]);
        }
        lemma_join_balanced(rest);
        assert(atom(ts[0]));
        lemma_space_balanced();
        lemma_balanced_concat(ts[0], seq![' ']);
        lemma_balanced_concat(ts[0] + seq![' '], join_texts(rest));
    }
}

/// Parentheses around balanced text make an atom.
proof fn lemma_paren_atom(inner: Seq<char>)
    requires
        balanced(inner),
    ensures
        atom(seq!['('] + inner + seq![')']),
{
    let a = seq!['('] + inner + seq![')'];
    assert(seq!['('].drop_last() =~= Seq::<char>::empty());
    assert(seq!['('].last() == '(');
    assert(depth_of(Seq::<char>::empty()) == 0);
    assert(depth_of(seq!['(']) == 1);
    lemma_depth_concat(seq!['('], inner);
    lemma_depth_concat(seq!['('] + inner, seq![')']);
    assert(seq![')'].drop_last() =~= Seq::<char>::empty());
    assert(seq![')'].last() == ')');
    assert(depth_of(seq![')']) == -1);
    assert forall|k: int| 0 <= k <= a.len() implies depth_of(#[trigger] a.take(k)) >= 0 by {
        if k == 0 {
            assert(a.take(k) =~= Seq::<char>::empty());
        } else if k <= inner.len() + 1 {
            assert(a.take(k) =~= seq!['('] + inner.take(k - 1));
            lemma_depth_concat(seq!['('], inner.take(k - 1));
        } else {
            assert(a.take(k) =~= a);
        }
    }
    assert forall|k: int| 0 <= k < a.len() && #[trigger] a[k] == ' ' implies depth_of(a.take(k)) > 0 by {
        if k == 0 {
            assert(a[0] == '(');
        } else if k <= inner.len() {
            assert(a.take(k) =~= seq!['('] + inner.take(k - 1));
            lemma_depth_concat(seq!['('], inner.take(k - 1));
        } else {
            assert(a[k] == ')');
        }
    }
}

proof fn lemma_plain_atom(w: Seq<char>)
    requires
        w.len() >= 1,
        plain(w),
    ensures
        atom(w),
{
    lemma_plain_depth(w);
}

proof fn lemma_trim_id(s: Seq<char>)
    requires
        s.len() >= 1,
        !is_ws(s[0]),
        !is_ws(s.last()),
    ensures
        trim(s) == s,
{
    assert(trim_start(s) == s);
    assert(trim_end(s) == s);
}

proof fn lemma_trim_space(t: Seq<char>)
    ensures
        trim(seq![' '] + t) == trim(t),
{
    assert((seq![' '] + t).drop_first() =~= t);
    assert(trim_start(seq![' '] + t) == trim_start(t));
}

proof fn lemma_parse_space(sigs: Seq<(Seq<char>, nat)>, t: Seq<char>)
    ensures
        parse_expr(sigs, seq![' '] + t) == parse_expr(sigs, t),
{
    lemma_trim_space(t);
    assert(crate::syntax::strip_brackets(seq![' '] + t) == crate::syntax::strip_brackets(t));
}

proof fn lemma_parse_segs(
    sigs: Seq<(Seq<char>, nat)>,
    segs: Seq<Seq<char>>,
    es: Seq<SExpr>,
    k: int,
    bound: int,
)
    requires
        segs.len() == es.len(),
        0 <= k <= segs.len(),
        forall|j: int| 0 <= j < segs.len() ==> (#[trigger] segs[j]).len() <= bound,
        forall|j: int| 0 <= j < segs.len() ==> parse_expr(sigs, #[trigger] segs[j]) == Ok::<SExpr, crate::error::ParseErrorKind>(es[j]),
    ensures
        crate::syntax::parse_segs(sigs, segs, k, bound) == Ok::<Seq<SExpr>, crate::error::ParseErrorKind>(es.skip(k)),
    decreases segs.len() - k,
{
    if k < segs.len() {
        lemma_parse_segs(sigs, segs, es, k + 1, bound);
        assert(parse_expr(sigs, segs[k]) == Ok::<SExpr, crate::error::ParseErrorKind>(es[k]));
        assert(seq![es[k]] + es.skip(k + 1) =~= es.skip(k));
    } else {
        assert(es.skip(k) =~= Seq::<SExpr>::empty());
    }
}

proof fn lemma_decimal_digits(n: nat)
    ensures
        decimal_digits(n).len() >= 1,
        all_digits(decimal_digits(n)),
        digits_value(decimal_digits(n)) == n,
        plain(decimal_digits(n)),
    decreases n,
{
    let d = decimal_digits(n);
    assert(digit_char((n % 10) as int) as int == 48 + n % 10);
    assert('0' as int == 48);
    if n < 10 {
        assert(d == seq![digit_char(n as int)]);
        assert(d.drop_last() =~= Seq::<char>::empty());
        assert(digits_value(d.drop_last()) == 0);
        assert(d.last() == digit_char(n as int));
        assert(digits_value(d) == digits_value(d.drop_last()) * 10 + (d.last() as int - '0' as int));
    } else {
        lemma_decimal_digits(n / 10);
        let p = decimal_digits(n / 10);
        assert(d == p.push(digit_char((n % 10) as int)));
        assert(d.drop_last() =~= p);
        assert(d.last() == digit_char((n % 10) as int));
        assert(digits_value(d) == digits_value(d.drop_last()) * 10 + (d.last() as int - '0' as int));
        assert forall|k: int| 0 <= k < d.len() implies is_digit(#[trigger] d[k]) by {
            if k < p.len() {
                assert(d[k] == p[k]);
            }
        }
        assert forall|k: int| 0 <= k < d.len() implies #[trigger] d[k] != '(' && d[k] != ')' && !is_ws(d[k]) by {
            if k < p.len() {
                assert(d[k] == p[k]);
            }
        }
    }
}

proof fn lemma_decimal(v: int)
    requires
        i64::MIN <= v <= i64::MAX,
    ensures
        atom(decimal(v)),
        plain(decimal(v)),
        is_literal(decimal(v)),
        literal_int(decimal(v)) == v,
{
    let t = decimal(v);
    if v < 0 {
        lemma_decimal_digits((-v) as nat);
        let d = decimal_digits((-v) as nat);
        assert(t.skip(1) =~= d);
        assert forall|k: int| 0 <= k < t.len() implies #[trigger] t[k] != '(' && t[k] != ')' && !is_ws(t[k]) by {
            if k > 0 {
                assert(t[k] == d[k - 1]);
            }
        }
    } else {
        lemma_decimal_digits(v as nat);
    }
    lemma_plain_atom(t);
}

pub open spec fn name_ok(n: Seq<char>) -> bool {
    &&& n.len() >= 1
    &&& plain(n)
    &&& !is_literal(n)
    &&& operator_of(n) is None
}

/// Expressions whose text reads back as themselves: names are plain words
/// that are no literal and no operator; variables are not registered as
/// functions, and calls name a registered function with the right arity.
pub open spec fn printable(sigs: Seq<(Seq<char>, nat)>, e: SExpr) -> bool
    decreases e, 0int,
{
    match e {
        SExpr::Literal(_) => true,
        SExpr::Variable(n) => name_ok(n) && find_sig(sigs, n, 0) is None,
        SExpr::Binary(_, x, y) => printable(sigs, *x) && printable(sigs, *y),
        SExpr::Ternary(x, y, z) => printable(sigs, *x) && printable(sigs, *y) && printable(sigs, *z),
        SExpr::Not(x) => printable(sigs, *x),
        SExpr::Print(args) => printable_all(sigs, args, 0),
        SExpr::Printa(args) => printable_all(sigs, args, 0),
        SExpr::Call(n, args) => {
            &&& name_ok(n)
            &&& find_sig(sigs, n, 0) is Some
            &&& sigs[find_sig(sigs, n, 0)->0].1 == args.len()
            &&& printable_all(sigs, args, 0)
        },
    }
}

pub open spec fn printable_all(sigs: Seq<(Seq<char>, nat)>, args: Seq<SExpr>, i: int) -> bool
    decreases args, args.len() - i,
{
    if i < 0 || i >= args.len() {
        true
    } else {
        printable(sigs, args[i]) && printable_all(sigs, args, i + 1)
    }
}

proof fn lemma_spaced(us: Seq<Seq<char>>)
    ensures
        spaced(us).len() == us.len(),
        forall|j: int| 0 <= j < us.len() ==> #[trigger] spaced(us)[j] == seq![' '] + us[j],
    decreases us.len(),
{
    if us.len() > 0 {
        lemma_spaced(us.drop_first());
        assert forall|j: int| 0 <= j < us.len() implies #[trigger] spaced(us)[j] == seq![' '] + us[j] by {
            if j > 0 {
                assert(spaced(us)[j] == spaced(us.drop_first())[j - 1]);
                assert(us.drop_first()[j - 1] == us[j]);
            }
        }
    }
}

proof fn lemma_join_ends(ts: Seq<Seq<char>>)
    requires
        ts.len() >= 1,
        all_atoms(ts),
    ensures
        join_texts(ts).len() >= 1,
        join_texts(ts)[0] == ts[0][0],
        join_texts(ts).last() == ts.last().last(),
    decreases ts.len(),
{
    assert(atom(ts[0]));
    if ts.len() > 1 {
        let rest = ts.drop_first();
        assert forall|q: int| 0 <= q < rest.len() implies atom(#[trigger] rest[q]) by {
            assert(rest[q] == ts[q + 1]);
        }
        lemma_join_ends(rest);
        assert(join_texts(ts) == ts[0] + seq![' '] + join_texts(rest));
        assert(rest.last() == ts.last());
    }
}

proof fn lemma_op_symbol(k: OpKind)
    ensures
        op_symbol(k).len() >= 1,
        plain(op_symbol(k)),
        !is_literal(op_symbol(k)),
        operator_of(op_symbol(k)) == Some(k),
{
    let w = op_symbol(k);
    assert(w.len() >= 1);
    assert(!is_digit(w[0]));
}

/// The text of an operator or function call reads back as that call.
proof fn lemma_call_text(sigs: Seq<(Seq<char>, nat)>, w: Seq<char>, ts: Seq<Seq<char>>, es: Seq<SExpr>)
    requires
        w.len() >= 1,
        plain(w),
        !is_literal(w),
        all_atoms(ts),
        ts.len() == es.len(),
        forall|j: int| 0 <= j < ts.len() ==> parse_expr(sigs, #[trigger] ts[j]) == Ok::<SExpr, crate::error::ParseErrorKind>(es[j]),
    ensures
        atom(call_text(w, ts)),
        crate::syntax::strip_brackets(call_text(w, ts)).len() > 0,
        !is_literal(crate::syntax::strip_brackets(call_text(w, ts))),
        crate::syntax::head_of(crate::syntax::strip_brackets(call_text(w, ts))) == w,
        crate::syntax::parse_segs(
            sigs,
            split_args(crate::syntax::rest_of(crate::syntax::strip_brackets(call_text(w, ts)))),
            0,
            crate::syntax::rest_of(crate::syntax::strip_brackets(call_text(w, ts))).len() as int,
        ) == Ok::<Seq<SExpr>, crate::error::ParseErrorKind>(es),
{
    let inner = if ts.len() == 0 {
        w
    } else {
        w + seq![' '] + join_texts(ts)
    };
    let c = call_text(w, ts);
    assert(c =~= seq!['('] + inner + seq![')']);
    lemma_plain_depth(w);
    lemma_space_balanced();
    lemma_join_balanced(ts);
    if ts.len() > 0 {
        lemma_balanced_concat(w, seq![' ']);
        lemma_balanced_concat(w + seq![' '], join_texts(ts));
        lemma_join_ends(ts);
        assert(atom(ts[0]));
        assert(atom(ts.last()));
        assert(inner.last() == join_texts(ts).last());
    }
    lemma_paren_atom(inner);
    assert(plain(w) ==> !is_ws(w[0]) && !is_ws(w.last()));
    lemma_trim_id(c);
    lemma_trim_id(inner);
    assert(c.subrange(1, c.len() - 1) =~= inner);
    let t = crate::syntax::strip_brackets(c);
    assert(t == inner);
    // not a literal
    if ts.len() > 0 {
        assert(inner[w.len() as int] == ' ');
        if inner[0] == '-' {
            assert(inner.skip(1)[w.len() - 1] == ' ');
            assert(!is_digit(inner.skip(1)[w.len() - 1]));
        } else {
            assert(!is_digit(inner[w.len() as int]));
        }
    }
    // the head word
    crate::syntax::lemma_first_space(inner, 0);
    let fs = crate::syntax::first_space(inner, 0);
    if fs < w.len() {
        assert(inner[fs] == w[fs]);
    }
    if ts.len() > 0 {
        assert(fs <= w.len());
    }
    assert(fs == w.len());
    assert(inner.take(fs) =~= w);
    // the operands
    let rest = crate::syntax::rest_of(inner);
    if ts.len() == 0 {
        assert(inner.skip(fs) =~= Seq::<char>::empty());
        assert(rest =~= Seq::<char>::empty());
        assert(split_args(rest) =~= Seq::<Seq<char>>::empty());
        assert(es =~= Seq::<SExpr>::empty());
        lemma_parse_segs(sigs, Seq::<Seq<char>>::empty(), es, 0, 0);
        assert(es.skip(0) =~= es);
    } else {
        let jt = join_texts(ts);
        assert(inner.skip(fs) =~= seq![' '] + jt);
        lemma_trim_space(jt);
        lemma_trim_id(jt);
        assert(rest == jt);
        assert(jt.subrange(0, jt.len() as int) =~= jt);
        lemma_split_join(jt, 0, 0, ts);
        assert(jt.subrange(0, ts[0].len() as int) =~= ts[0]) by {
            if ts.len() > 1 {
                assert(jt == ts[0] + seq![' '] + join_texts(ts.drop_first()));
            }
        }
        let segs = split_args(jt);
        lemma_spaced(ts.drop_first());
        assert(segs.len() == ts.len());
        crate::syntax::lemma_split_scan_short(jt, 0, 0, 0);
        assert forall|j: int| 0 <= j < segs.len() implies parse_expr(sigs, #[trigger] segs[j])
            == Ok::<SExpr, crate::error::ParseErrorKind>(es[j]) by {
            if j == 0 {
                assert(segs[0] == ts[0]);
            } else {
                assert(segs[j] == spaced(ts.drop_first())[j - 1]);
                assert(ts.drop_first()[j - 1] == ts[j]);
                lemma_parse_space(sigs, ts[j]);
            }
        }
        lemma_parse_segs(sigs, segs, es, 0, jt.len() as int);
        assert(es.skip(0) =~= es);
    }
}

proof fn lemma_rt_literal(sigs: Seq<(Seq<char>, nat)>, v: i64)
    ensures
        atom(show(SExpr::Literal(v))),
        parse_expr(sigs, show(SExpr::Literal(v))) == Ok::<SExpr, crate::error::ParseErrorKind>(SExpr::Literal(v)),
{
    lemma_decimal(v as int);
    let t = decimal(v as int);
    assert(show(SExpr::Literal(v)) == t);
    lemma_trim_id(t);
    assert(crate::syntax::strip_brackets(t) == t);
    assert(literal_int(t) == v as int);
}

proof fn lemma_rt_variable(sigs: Seq<(Seq<char>, nat)>, n: Seq<char>)
    requires
        name_ok(n),
        find_sig(sigs, n, 0) is None,
    ensures
        atom(show(SExpr::Variable(n))),
        parse_expr(sigs, show(SExpr::Variable(n))) == Ok::<SExpr, crate::error::ParseErrorKind>(SExpr::Variable(n)),
{
    assert(show(SExpr::Variable(n)) == n);
    lemma_plain_atom(n);
    lemma_trim_id(n);
    assert(crate::syntax::strip_brackets(n) == n);
    crate::syntax::lemma_first_space(n, 0);
    let fs = crate::syntax::first_space(n, 0);
    if fs < n.len() {
        assert(n[fs] == ' ');
    }
    assert(n.take(n.len() as int) =~= n);
    assert(crate::syntax::head_of(n) == n);
}

proof fn lemma_rt_operator(sigs: Seq<(Seq<char>, nat)>, k: OpKind, ts: Seq<Seq<char>>, es: Seq<SExpr>)
    requires
        all_atoms(ts),
        ts.len() == es.len(),
        forall|j: int| 0 <= j < ts.len() ==> parse_expr(sigs, #[trigger] ts[j]) == Ok::<SExpr, crate::error::ParseErrorKind>(es[j]),
    ensures
        atom(call_text(op_symbol(k), ts)),
        parse_expr(sigs, call_text(op_symbol(k), ts)) == crate::syntax::make_builtin(k, es),
{
    lemma_op_symbol(k);
    lemma_call_text(sigs, op_symbol(k), ts, es);
    let c = call_text(op_symbol(k), ts);
    let t = crate::syntax::strip_brackets(c);
    let rest = crate::syntax::rest_of(t);
    assert(crate::syntax::head_of(t) == op_symbol(k));
    assert(operator_of(crate::syntax::head_of(t)) == Some(k));
    crate::syntax::lemma_split_scan_short(rest, 0, 0, 0);
    assert(crate::syntax::parse_segs(sigs, split_args(rest), 0, rest.len() as int) == Ok::<Seq<SExpr>, crate::error::ParseErrorKind>(es));
    assert(crate::syntax::parse_operator(sigs, k, rest) == match crate::syntax::parse_segs(sigs, split_args(rest), 0, rest.len() as int) {
        Err(e) => Err(e),
        Ok(args) => crate::syntax::make_builtin(k, args),
    });
    assert(crate::syntax::parse_operator(sigs, k, rest) == crate::syntax::make_builtin(k, es));
    assert(parse_expr(sigs, c) == crate::syntax::parse_operator(sigs, k, rest));
}

proof fn lemma_rt_call(sigs: Seq<(Seq<char>, nat)>, n: Seq<char>, ts: Seq<Seq<char>>, es: Seq<SExpr>)
    requires
        name_ok(n),
        find_sig(sigs, n, 0) is Some,
        sigs[find_sig(sigs, n, 0)->0].1 == es.len(),
        all_atoms(ts),
        ts.len() == es.len(),
        forall|j: int| 0 <= j < ts.len() ==> parse_expr(sigs, #[trigger] ts[j]) == Ok::<SExpr, crate::error::ParseErrorKind>(es[j]),
    ensures
        atom(call_text(n, ts)),
        parse_expr(sigs, call_text(n, ts)) == Ok::<SExpr, crate::error::ParseErrorKind>(SExpr::Call(n, es)),
{
    lemma_call_text(sigs, n, ts, es);
    let c = call_text(n, ts);
    let t = crate::syntax::strip_brackets(c);
    let rest = crate::syntax::rest_of(t);
    assert(crate::syntax::head_of(t) == n);
    crate::syntax::lemma_split_scan_short(rest, 0, 0, 0);
    assert(parse_expr(sigs, c) == Ok::<SExpr, crate::error::ParseErrorKind>(SExpr::Call(n, es)));
}

/// Every printable expression's text is an atom and parses back to it.
#[verifier::rlimit(40)]
pub proof fn lemma_round_trip(sigs: Seq<(Seq<char>, nat)>, e: SExpr)
    requires
        printable(sigs, e),
    ensures
        atom(show(e)),
        parse_expr(sigs, show(e)) == Ok::<SExpr, crate::error::ParseErrorKind>(e),
    decreases e, 0int,
{
    match e {
        SExpr::Literal(v) => {
            lemma_rt_literal(sigs, v);
        },
        SExpr::Variable(n) => {
            lemma_rt_variable(sigs, n);
        },
        SExpr::Binary(o, x, y) => {
            lemma_round_trip(sigs, *x);
            lemma_round_trip(sigs, *y);
            lemma_rt_operator(sigs, OpKind::Bin(o), seq![show(*x), show(*y)], seq![*x, *y]);
        },
        SExpr::Ternary(x, y, z) => {
            lemma_round_trip(sigs, *x);
            lemma_round_trip(sigs, *y);
            lemma_round_trip(sigs, *z);
            lemma_rt_operator(sigs, OpKind::Ternary, seq![show(*x), show(*y), show(*z)], seq![*x, *y, *z]);
        },
        SExpr::Not(x) => {
            lemma_round_trip(sigs, *x);
            lemma_rt_operator(sigs, OpKind::Not, seq![show(*x)], seq![*x]);
        },
        SExpr::Print(args) => {
            lemma_round_trip_all(sigs, args, 0);
            lemma_rt_operator(sigs, OpKind::Print, show_all(args, 0), args);
        },
        SExpr::Printa(args) => {
            lemma_round_trip_all(sigs, args, 0);
            lemma_rt_operator(sigs, OpKind::Printa, show_all(args, 0), args);
        },
        SExpr::Call(n, args) => {
            lemma_round_trip_all(sigs, args, 0);
            lemma_rt_call(sigs, n, show_all(args, 0), args);
        },
    }
}

pub proof fn lemma_round_trip_all(sigs: Seq<(Seq<char>, nat)>, args: Seq<SExpr>, i: int)
    requires
        printable_all(sigs, args, i),
        0 <= i <= args.len(),
    ensures
        show_all(args, i).len() == args.len() - i,
        all_atoms(show_all(args, i)),
        forall|j: int| 0 <= j < args.len() - i ==> parse_expr(sigs, #[trigger] show_all(args, i)[j])
            == Ok::<SExpr, crate::error::ParseErrorKind>(args[i + j]),
    decreases args, args.len() - i,
{
    if i < args.len() {
        lemma_round_trip(sigs, args[i]);
        lemma_round_trip_all(sigs, args, i + 1);
        let rest = show_all(args, i + 1);
        assert(show_all(args, i) == seq![show(args[i])] + rest);
        assert forall|j: int| 0 <= j < args.len() - i implies parse_expr(sigs, #[trigger] show_all(args, i)[j])
            == Ok::<SExpr, crate::error::ParseErrorKind>(args[i + j]) by {
            if j > 0 {
                assert(show_all(args, i)[j] == rest[j - 1]);
            }
        }
        assert forall|j: int| 0 <= j < show_all(args, i).len() implies atom(#[trigger] show_all(args, i)[j]) by {
            if j > 0 {
                assert(show_all(args, i)[j] == rest[j - 1]);
            }
        }
    }
}

proof fn lemma_join_push(ts: Seq<Seq<char>>, i: int)
    requires
        1 <= i < ts.len(),
    ensures
        join_texts(ts.take(i + 1)) == join_texts(ts.take(i)) + seq![' '] + ts[i],
    decreases i,
{
    if i == 1 {
        assert(ts.take(2).drop_first() =~= seq![ts[1]]);
        assert(join_texts(seq![ts[1]]) == ts[1]);
        assert(join_texts(ts.take(1)) == ts.take(1)[0]);
        assert(join_texts(ts.take(2)) == ts.take(2)[0] + seq![' '] + join_texts(ts.take(2).drop_first()));
    } else {
        let u = ts.drop_first();
        lemma_join_push(u, i - 1);
        assert(ts.take(i + 1).drop_first() =~= u.take(i));
        assert(ts.take(i).drop_first() =~= u.take(i - 1));
        assert(u[i - 1] == ts[i]);
        assert(join_texts(ts.take(i + 1)) == ts.take(i + 1)[0] + seq![' '] + join_texts(u.take(i)));
        assert(join_texts(ts.take(i)) == ts.take(i)[0] + seq![' '] + join_texts(u.take(i - 1)));
        assert(join_texts(ts.take(i + 1)) =~= join_texts(ts.take(i)) + seq![' '] + ts[i]);
    }
}

/// Writes `(word part part ...)`.
pub fn write_call(word: &Vec<char>, parts: &Vec<Vec<char>>) -> (r: Vec<char>)
    ensures
        r@ == call_text(word@, parts@.map_values(|p: Vec<char>| p@)),
{
    let ghost ts = parts@.map_values(|p: Vec<char>| p@);
    let mut out: Vec<char> = Vec::new();
    out.push('(');
    let mut k: usize = 0;
    while k < word.len()
        invariant
            k <= word.len(),
            out@ == seq!['('] + word@.take(k as int),
        decreases word.len() - k,
    {
        out.push(word[k]);
        assert(word@.take(k + 1) =~= word@.take(k as int).push(word@[k as int]));
        k = k + 1;
    }
    assert(word@.take(word.len() as int) =~= word@);
    let ghost head = out@;
    let mut i: usize = 0;
    while i < parts.len()
        invariant
            i <= parts.len(),
            ts == parts@.map_values(|p: Vec<char>| p@),
            head == seq!['('] + word@,
            i == 0 ==> out@ == head,
            i > 0 ==> out@ == head + seq![' '] + join_texts(ts.take(i as int)),
        decreases parts.len() - i,
    {
        out.push(' ');
        let part = &parts[i];
        let ghost before = out@;
        let mut j: usize = 0;
        while j < part.len()
            invariant
                j <= part.len(),
                out@ == before + part@.take(j as int),
            decreases part.len() - j,
        {
            out.push(part[j]);
            assert(part@.take(j + 1) =~= part@.take(j as int).push(part@[j as int]));
            j = j + 1;
        }
        assert(part@.take(part.len() as int) =~= part@);
        assert(ts[i as int] == part@);
        if i == 0 {
            assert(ts.take(1) =~= seq![part@]);
            assert(join_texts(ts.take(1)) == part@);
        } else {
            proof {
                lemma_join_push(ts, i as int);
            }
        }
        assert(out@ =~= head + seq![' '] + join_texts(ts.take(i + 1)));
        i = i + 1;
    }
    out.push(')');
    assert(ts.take(ts.len() as int) =~= ts);
    assert(out@ =~= call_text(word@, ts));
    out
}

pub proof fn lemma_show_all(vs: Seq<SExpr>, i: int)
    requires
        0 <= i <= vs.len(),
    ensures
        show_all(vs, i) == vs.skip(i).map_values(|e: SExpr| show(e)),
    decreases vs.len() - i,
{
    if i < vs.len() {
        lemma_show_all(vs, i + 1);
    }
    assert(show_all(vs, i) =~= vs.skip(i).map_values(|e: SExpr| show(e)));
}

/// The symbol of an operator.
pub fn op_word(k: OpKind) -> (r: Vec<char>)
    ensures
        r@ == op_symbol(k),
{
    let mut r: Vec<char> = Vec::new();
    match k {
        OpKind::Bin(o) => match o {
            Operator::Add => r.push('+'),
            Operator::Sub => r.push('-'),
            Operator::Mul => r.push('*'),
            Operator::Div => r.push('/'),
            Operator::Mod => r.push('%'),
            Operator::Eq => {
                r.push('=');
                r.push('=');
            },
            Operator::Neq => {
                r.push('!');
                r.push('=');
            },
            Operator::Lt => r.push('<'),
            Operator::Gt => r.push('>'),
            Operator::Le => {
                r.push('<');
                r.push('=');
            },
            Operator::Ge => {
                r.push('>');
                r.push('=');
            },
        },
        OpKind::Ternary => r.push('?'),
        OpKind::Not => r.push('!'),
        OpKind::Print | OpKind::Printa => {
            r.push('p');
            r.push('r');
            r.push('i');
            r.push('n');
            r.push('t');
            if k == OpKind::Printa {
                r.push('a');
            }
        },
    }
    assert(r@ =~= op_symbol(k));
    r
}

} // verus!
