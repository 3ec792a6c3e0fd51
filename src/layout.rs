//! One-line blocks: a block holding a single statement may stand on its
//! header's line, as in `for i 0 3 { (print i) }`. Such a line reads as the
//! header line, the statement's own lines, and a closing `}` line.
use vstd::prelude::*;
use crate::assembly::{
    for_header, for_split, func_header, func_split, if_header, is_if_header, is_while_header,
    text_lines, while_header,
};
use crate::text::{slice, trim_chars};
use crate::syntax::trim;

verus! {

/// The index of the first `{` at or after `i`, or the length.
pub open spec fn first_brace(l: Seq<char>, i: int) -> int
    decreases l.len() - i,
{
    if i < 0 || i >= l.len() {
        l.len() as int
    } else if l[i] == '{' {
        i
    } else {
        first_brace(l, i + 1)
    }
}

pub open spec fn is_header(h: Seq<char>) -> bool {
    if_header(h) is Some || while_header(h) is Some || for_header(h) is Some || func_header(h) is Some
}

/// `header { statement }` on one trimmed line: the header line and the statement.
pub open spec fn inline_parts(l: Seq<char>) -> Option<(Seq<char>, Seq<char>)> {
    let p = first_brace(l, 0);
    if 1 <= p && p + 3 <= l.len() && l[p - 1] == ' ' && l[l.len() - 2] == ' ' && l[l.len() - 1] == '}'
        && is_header(l.take(p + 1)) && trim(l.subrange(p + 1, l.len() - 1)).len() > 0 {
        Some((l.take(p + 1), trim(l.subrange(p + 1, l.len() - 1))))
    } else {
        None
    }
}

pub proof fn lemma_first_brace(l: Seq<char>, i: int)
    requires
        0 <= i <= l.len(),
    ensures
        i <= first_brace(l, i) <= l.len(),
    decreases l.len() - i,
{
    if i < l.len() && l[i] != '{' {
        lemma_first_brace(l, i + 1);
    }
}

/// The lines that one source line stands for.
pub open spec fn expand_line(l: Seq<char>) -> Seq<Seq<char>>
    decreases l.len(),
{
    let t = trim(l);
    match inline_parts(t) {
        Some((h, body)) => {
            proof {
                crate::syntax::lemma_trim(l);
                lemma_first_brace(t, 0);
                crate::syntax::lemma_trim(t.subrange(first_brace(t, 0) + 1, t.len() - 1));
            }
            seq![h] + expand_line(body) + seq![seq!['}']]
        },
        None => seq![l],
    }
}

/// The lines that `lines[i..]` stand for.
pub open spec fn expand_all(lines: Seq<Seq<char>>, i: int) -> Seq<Seq<char>>
    decreases lines.len() - i,
{
    if i < 0 || i >= lines.len() {
        Seq::empty()
    } else {
        expand_line(lines[i]) + expand_all(lines, i + 1)
    }
}

/// For each line of `expand_all(lines, i)`, the source line (counted from 1) it comes from.
pub open spec fn origins(lines: Seq<Seq<char>>, i: int) -> Seq<usize>
    decreases lines.len() - i,
{
    if i < 0 || i >= lines.len() {
        Seq::empty()
    } else {
        Seq::new(expand_line(lines[i]).len(), |k: int| (i + 1) as usize) + origins(lines, i + 1)
    }
}

} // verus!
verus! {

pub fn first_brace_index(l: &Vec<char>) -> (r: usize)
    ensures
        r == first_brace(l@, 0),
{
    let mut i: usize = 0;
    while i < l.len() && l[i] != '{'
        invariant
            i <= l.len(),
            first_brace(l@, 0) == first_brace(l@, i as int),
        decreases l.len() - i,
    {
        i = i + 1;
    }
    i
}

fn is_header_line(h: &Vec<char>) -> (r: bool)
    ensures
        r == is_header(h@),
{
    is_if_header(h) || is_while_header(h) || for_split(h).is_some() || func_split(h).is_some()
}

/// Splits `header { statement }` into the header line and the statement.
pub fn inline_split(l: &Vec<char>) -> (r: Option<(Vec<char>, Vec<char>)>)
    ensures
        match r {
            Some((h, b)) => inline_parts(l@) == Some((h@, b@)),
            None => inline_parts(l@) is None,
        },
{
    let n = l.len();
    let p = first_brace_index(l);
    proof {
        lemma_first_brace(l@, 0);
    }
    if !(1 <= p && n >= 3 && p <= n - 3 && l[p - 1] == ' ' && l[n - 2] == ' ' && l[n - 1] == '}') {
        return None;
    }
    let h = slice(l, 0, p + 1);
    assert(h@ =~= l@.take(p + 1));
    if !is_header_line(&h) {
        return None;
    }
    let inner = slice(l, p + 1, n - 1);
    let b = trim_chars(&inner);
    if b.len() == 0 {
        return None;
    }
    Some((h, b))
}

/// Appends the lines that the source line `l` stands for.
pub fn expand_line_into(l: &Vec<char>, out: &mut Vec<Vec<char>>)
    ensures
        text_lines(*final(out)) == text_lines(*old(out)) + expand_line(l@),
    decreases l@.len(),
{
    let t = trim_chars(l);
    match inline_split(&t) {
        Some((h, b)) => {
            proof {
                crate::syntax::lemma_trim(l@);
                lemma_first_brace(t@, 0);
                crate::syntax::lemma_trim(t@.subrange(first_brace(t@, 0) + 1, t@.len() - 1));
            }
            let ghost before = text_lines(*out);
            out.push(h);
            let ghost mid = text_lines(*out);
            assert(mid =~= before + seq![h@]);
            expand_line_into(&b, out);
            let mut close: Vec<char> = Vec::new();
            close.push('}');
            let ghost after_body = text_lines(*out);
            out.push(close);
            assert(text_lines(*out) =~= after_body + seq![close@]);
            assert(close@ =~= seq!['}']);
            assert(expand_line(l@) == seq![h@] + expand_line(b@) + seq![seq!['}']]);
            assert(text_lines(*out) =~= before + expand_line(l@));
        },
        None => {
            let ghost before = text_lines(*out);
            let c = slice(l, 0, l.len());
            assert(c@ =~= l@);
            out.push(c);
            assert(expand_line(l@) == seq![l@]);
            assert(text_lines(*out) =~= before + expand_line(l@));
        },
    }
}

/// The lines that the source lines stand for, with the source line (counted
/// from 1) of each.
pub fn expand_lines(lines: &Vec<Vec<char>>) -> (r: (Vec<Vec<char>>, Vec<usize>))
    ensures
        text_lines(r.0) == expand_all(text_lines(*lines), 0),
        r.1@ == origins(text_lines(*lines), 0),
{
    let ghost big_l = text_lines(*lines);
    let mut out: Vec<Vec<char>> = Vec::new();
    let mut org: Vec<usize> = Vec::new();
    let mut i: usize = 0;
    assert(text_lines(out) =~= Seq::<Seq<char>>::empty());
    assert(expand_all(big_l, 0) =~= text_lines(out) + expand_all(big_l, 0));
    assert(origins(big_l, 0) =~= org@ + origins(big_l, 0));
    while i < lines.len()
        invariant
            i <= lines.len(),
            big_l == text_lines(*lines),
            expand_all(big_l, 0) == text_lines(out) + expand_all(big_l, i as int),
            origins(big_l, 0) == org@ + origins(big_l, i as int),
        decreases lines.len() - i,
    {
        let ghost before = text_lines(out);
        let ghost org_before = org@;
        let start = out.len();
        assert(before.len() == start);
        expand_line_into(&lines[i], &mut out);
        assert(big_l[i as int] == lines@[i as int]@);
        assert(text_lines(out).len() == out@.len());
        assert(text_lines(out) == before + expand_line(big_l[i as int]));
        let added = out.len() - start;
        let mut k: usize = 0;
        while k < added
            invariant
                k <= added,
                i < lines.len(),
                org@ == org_before + Seq::new(k as nat, |q: int| (i + 1) as usize),
            decreases added - k,
        {
            org.push(i + 1);
            assert(org@ =~= org_before + Seq::new((k + 1) as nat, |q: int| (i + 1) as usize));
            k = k + 1;
        }
        assert(added == expand_line(big_l[i as int]).len());
        assert(expand_all(big_l, i as int) == expand_line(big_l[i as int]) + expand_all(big_l, i + 1));
        assert(text_lines(out) + expand_all(big_l, i + 1) =~= before + expand_all(big_l, i as int));
        assert(origins(big_l, i as int) == Seq::new(expand_line(big_l[i as int]).len(), |q: int| (i + 1) as usize) + origins(big_l, i + 1));
        assert(org@ + origins(big_l, i + 1) =~= org_before + origins(big_l, i as int));
        i = i + 1;
    }
    assert(text_lines(out) + Seq::<Seq<char>>::empty() =~= text_lines(out));
    assert(org@ + Seq::<usize>::empty() =~= org@);
    (out, org)
}

} // verus!
