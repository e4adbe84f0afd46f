//! The canonical order of terms, bindings and constraints, used to print
//! residual constraints in a stable form.
use vstd::prelude::*;
use vstd::string::StrSliceExecFns;
use crate::term::{Term, TermType, Var};

verus! {

broadcast use vstd::seq_lib::group_to_multiset_ensures;

pub open spec fn cmp_int(a: int, b: int) -> int {
    if a < b {
        -1
    } else if a > b {
        1
    } else {
        0
    }
}

/// Lexicographic order of character sequences, by code point.
pub open spec fn cmp_chars(a: Seq<char>, b: Seq<char>) -> int
    decreases a.len(),
{
    if a.len() == 0 {
        if b.len() == 0 {
            0
        } else {
            -1
        }
    } else if b.len() == 0 {
        1
    } else {
        let c = cmp_int(a[0] as u32 as int, b[0] as u32 as int);
        if c != 0 {
            c
        } else {
            cmp_chars(a.drop_first(), b.drop_first())
        }
    }
}

pub open spec fn type_rank(t: TermType) -> int {
    match t {
        TermType::Any => 0,
        TermType::Number => 1,
        TermType::String => 2,
    }
}

/// Terms are ordered first by kind (type sentinel, number, string,
/// variable, pair, empty list), then by contents.
pub open spec fn kind_rank(t: Term) -> int {
    match t {
        Term::Type(_) => 0,
        Term::Value(_) => 1,
        Term::String(_) => 2,
        Term::Var(_, _) => 3,
        Term::Cons(_, _) => 4,
        Term::Null => 5,
    }
}

/// -1, 0 or 1 as `a` comes before, with, or after `b`.
pub open spec fn cmp_term(a: Term, b: Term) -> int
    decreases a,
{
    match (a, b) {
        (Term::Type(x), Term::Type(y)) => cmp_int(type_rank(x), type_rank(y)),
        (Term::Value(x), Term::Value(y)) => cmp_int(x as int, y as int),
        (Term::String(x), Term::String(y)) => cmp_chars(x@, y@),
        (Term::Var(v, s), Term::Var(w, t)) => {
            let c = cmp_int(v.0 as int, w.0 as int);
            if c != 0 {
                c
            } else {
                cmp_int(type_rank(s), type_rank(t))
            }
        },
        (Term::Cons(h1, t1), Term::Cons(h2, t2)) => {
            let c = cmp_term(*h1, *h2);
            if c != 0 {
                c
            } else {
                cmp_term(*t1, *t2)
            }
        },
        _ => cmp_int(kind_rank(a), kind_rank(b)),
    }
}

/// Bindings: by variable, then by term.
pub open spec fn cmp_pair(p: (Var, Term), q: (Var, Term)) -> int {
    let c = cmp_int(p.0.0 as int, q.0.0 as int);
    if c != 0 {
        c
    } else {
        cmp_term(p.1, q.1)
    }
}

/// Constraints: lexicographically by their bindings.
pub open spec fn cmp_pairs(a: Seq<(Var, Term)>, b: Seq<(Var, Term)>) -> int
    decreases a.len(),
{
    if a.len() == 0 {
        if b.len() == 0 {
            0
        } else {
            -1
        }
    } else if b.len() == 0 {
        1
    } else {
        let c = cmp_pair(a[0], b[0]);
        if c != 0 {
            c
        } else {
            cmp_pairs(a.drop_first(), b.drop_first())
        }
    }
}

proof fn lemma_cmp_chars_antisym(a: Seq<char>, b: Seq<char>)
    ensures
        cmp_chars(a, b) == -cmp_chars(b, a),
    decreases a.len(),
{
    if a.len() > 0 && b.len() > 0 {
        lemma_cmp_chars_antisym(a.drop_first(), b.drop_first());
    }
}

proof fn lemma_cmp_term_antisym(a: Term, b: Term)
    ensures
        cmp_term(a, b) == -cmp_term(b, a),
    decreases a,
{
    match (a, b) {
        (Term::String(x), Term::String(y)) => lemma_cmp_chars_antisym(x@, y@),
        (Term::Cons(h1, t1), Term::Cons(h2, t2)) => {
            lemma_cmp_term_antisym(*h1, *h2);
            lemma_cmp_term_antisym(*t1, *t2);
        },
        _ => {},
    }
}

proof fn lemma_cmp_pairs_antisym(a: Seq<(Var, Term)>, b: Seq<(Var, Term)>)
    ensures
        cmp_pairs(a, b) == -cmp_pairs(b, a),
    decreases a.len(),
{
    if a.len() > 0 && b.len() > 0 {
        lemma_cmp_term_antisym(a[0].1, b[0].1);
        lemma_cmp_pairs_antisym(a.drop_first(), b.drop_first());
    }
}

fn cmp_int_exec(a: i64, b: i64) -> (r: i8)
    ensures
        r == cmp_int(a as int, b as int),
{
    if a < b {
        -1
    } else if a > b {
        1
    } else {
        0
    }
}

fn type_rank_exec(t: TermType) -> (r: i64)
    ensures
        r == type_rank(t),
{
    match t {
        TermType::Any => 0,
        TermType::Number => 1,
        TermType::String => 2,
    }
}

fn kind_rank_exec(t: &Term) -> (r: i64)
    ensures
        r == kind_rank(*t),
{
    match t {
        Term::Type(_) => 0,
        Term::Value(_) => 1,
        Term::String(_) => 2,
        Term::Var(_, _) => 3,
        Term::Cons(_, _) => 4,
        Term::Null => 5,
    }
}

fn cmp_str(a: &str, b: &str) -> (r: i8)
    ensures
        r == cmp_chars(a@, b@),
{
    let la = a.unicode_len();
    let lb = b.unicode_len();
    let mut i: usize = 0;
    assert(a@.subrange(0, la as int) =~= a@);
    assert(b@.subrange(0, lb as int) =~= b@);
    while i < la && i < lb
        invariant
            la == a@.len(),
            lb == b@.len(),
            0 <= i <= la,
            i <= lb,
            cmp_chars(a@, b@) == cmp_chars(a@.subrange(i as int, la as int), b@.subrange(
                i as int,
                lb as int,
            )),
        decreases la - i,
    {
        let ca = a.get_char(i);
        let cb = b.get_char(i);
        let ghost sa = a@.subrange(i as int, la as int);
        let ghost sb = b@.subrange(i as int, lb as int);
        assert(sa.drop_first() =~= a@.subrange(i + 1, la as int));
        assert(sb.drop_first() =~= b@.subrange(i + 1, lb as int));
        let c = cmp_int_exec(ca as u32 as i64, cb as u32 as i64);
        if c != 0 {
            return c;
        }
        i = i + 1;
    }
    if i < la {
        1
    } else if i < lb {
        -1
    } else {
        0
    }
}

/// See [`cmp_term`].
pub fn compare_terms(a: &Term, b: &Term) -> (r: i8)
    ensures
        r == cmp_term(*a, *b),
    decreases a,
{
    match (a, b) {
        (Term::Type(x), Term::Type(y)) => cmp_int_exec(type_rank_exec(*x), type_rank_exec(*y)),
        (Term::Value(x), Term::Value(y)) => cmp_int_exec(*x as i64, *y as i64),
        (Term::String(x), Term::String(y)) => cmp_str(x.as_str(), y.as_str()),
        (Term::Var(v, s), Term::Var(w, t)) => {
            let c = cmp_int_exec(v.0 as i64, w.0 as i64);
            if c != 0 {
                c
            } else {
                cmp_int_exec(type_rank_exec(*s), type_rank_exec(*t))
            }
        },
        (Term::Cons(h1, t1), Term::Cons(h2, t2)) => {
            let c = compare_terms(&**h1, &**h2);
            if c != 0 {
                c
            } else {
                compare_terms(&**t1, &**t2)
            }
        },
        _ => cmp_int_exec(kind_rank_exec(a), kind_rank_exec(b)),
    }
}

fn compare_pair(p: &(Var, Term), q: &(Var, Term)) -> (r: i8)
    ensures
        r == cmp_pair(*p, *q),
{
    let c = cmp_int_exec(p.0.0 as i64, q.0.0 as i64);
    if c != 0 {
        c
    } else {
        compare_terms(&p.1, &q.1)
    }
}

fn compare_pairs(a: &Vec<(Var, Term)>, b: &Vec<(Var, Term)>) -> (r: i8)
    ensures
        r == cmp_pairs(a@, b@),
{
    let mut i: usize = 0;
    assert(a@.subrange(0, a.len() as int) =~= a@);
    assert(b@.subrange(0, b.len() as int) =~= b@);
    while i < a.len() && i < b.len()
        invariant
            0 <= i <= a.len(),
            i <= b.len(),
            cmp_pairs(a@, b@) == cmp_pairs(a@.subrange(i as int, a.len() as int), b@.subrange(
                i as int,
                b.len() as int,
            )),
        decreases a.len() - i,
    {
        let ghost sa = a@.subrange(i as int, a.len() as int);
        let ghost sb = b@.subrange(i as int, b.len() as int);
        assert(sa.drop_first() =~= a@.subrange(i + 1, a.len() as int));
        assert(sb.drop_first() =~= b@.subrange(i + 1, b.len() as int));
        let c = compare_pair(&a[i], &b[i]);
        if c != 0 {
            return c;
        }
        i = i + 1;
    }
    if i < a.len() {
        1
    } else if i < b.len() {
        -1
    } else {
        0
    }
}

/// Each binding is in order with the next.
pub open spec fn pairs_sorted(s: Seq<(Var, Term)>) -> bool {
    forall|i: int| 0 <= i < s.len() - 1 ==> cmp_pair(#[trigger] s[i], s[i + 1]) <= 0
}

/// Each constraint is in order with the next.
pub open spec fn constraints_sorted(s: Seq<Seq<(Var, Term)>>) -> bool {
    forall|i: int| 0 <= i < s.len() - 1 ==> cmp_pairs(#[trigger] s[i], s[i + 1]) <= 0
}

/// Sorts the bindings of a constraint into canonical order.
pub fn sort_pairs(v: Vec<(Var, Term)>) -> (r: Vec<(Var, Term)>)
    ensures
        pairs_sorted(r@),
        r@.to_multiset() == v@.to_multiset(),
{
    let ghost orig = v@;
    let mut v = v;
    let mut rev: Vec<(Var, Term)> = Vec::new();
    while v.len() > 0
        invariant
            v@.to_multiset().add(rev@.to_multiset()) == orig.to_multiset(),
        decreases v.len(),
    {
        let ghost before = v@;
        let x = v.pop().unwrap();
        assert(before =~= v@.push(x));
        rev.push(x);
    }
    let mut out: Vec<(Var, Term)> = Vec::new();
    while rev.len() > 0
        invariant
            pairs_sorted(out@),
            out@.to_multiset().add(rev@.to_multiset()) == orig.to_multiset(),
        decreases rev.len(),
    {
        let ghost before = rev@;
        let x = rev.pop().unwrap();
        assert(before =~= rev@.push(x));
        let mut p: usize = 0;
        while p < out.len() && compare_pair(&out[p], &x) <= 0
            invariant
                0 <= p <= out.len(),
                p > 0 ==> cmp_pair(out@[p - 1], x) <= 0,
            decreases out.len() - p,
        {
            p = p + 1;
        }
        if p < out.len() {
            proof {
                lemma_cmp_term_antisym(out@[p as int].1, x.1);
            }
        }
        let ghost o = out@;
        out.insert(p, x);
        assert forall|i: int| 0 <= i < out@.len() - 1 implies cmp_pair(
            #[trigger] out@[i],
            out@[i + 1],
        ) <= 0 by {
            if i < p - 1 {
                assert(out@[i] == o[i] && out@[i + 1] == o[i + 1]);
            } else if i == p - 1 {
            } else if i == p {
            } else {
                assert(out@[i] == o[i - 1] && out@[i + 1] == o[i]);
            }
        }
    }
    out
}

/// Sorts constraints into canonical order.
pub fn sort_constraints(v: Vec<Vec<(Var, Term)>>) -> (r: Vec<Vec<(Var, Term)>>)
    ensures
        constraints_sorted(crate::constraint::store_view(r@)),
        crate::constraint::store_view(r@).to_multiset() == crate::constraint::store_view(
            v@,
        ).to_multiset(),
{
    let ghost orig = crate::constraint::store_view(v@);
    let mut v = v;
    let mut rev: Vec<Vec<(Var, Term)>> = Vec::new();
    while v.len() > 0
        invariant
            crate::constraint::store_view(v@).to_multiset().add(
                crate::constraint::store_view(rev@).to_multiset(),
            ) == orig.to_multiset(),
        decreases v.len(),
    {
        let ghost before = v@;
        let ghost rb = rev@;
        let x = v.pop().unwrap();
        assert(crate::constraint::store_view(before) =~= crate::constraint::store_view(v@).push(x@));
        rev.push(x);
        assert(crate::constraint::store_view(rev@) =~= crate::constraint::store_view(rb).push(x@));
    }
    let mut out: Vec<Vec<(Var, Term)>> = Vec::new();
    assert(crate::constraint::store_view(out@) =~= Seq::<Seq<(Var, Term)>>::empty());
    while rev.len() > 0
        invariant
            constraints_sorted(crate::constraint::store_view(out@)),
            crate::constraint::store_view(out@).to_multiset().add(
                crate::constraint::store_view(rev@).to_multiset(),
            ) == orig.to_multiset(),
        decreases rev.len(),
    {
        let ghost before = rev@;
        let x = rev.pop().unwrap();
        assert(crate::constraint::store_view(before) =~= crate::constraint::store_view(rev@).push(x@));
        let mut p: usize = 0;
        while p < out.len() && compare_pairs(&out[p], &x) <= 0
            invariant
                0 <= p <= out.len(),
                p > 0 ==> cmp_pairs(out@[p - 1]@, x@) <= 0,
            decreases out.len() - p,
        {
            p = p + 1;
        }
        if p < out.len() {
            proof {
                lemma_cmp_pairs_antisym(out@[p as int]@, x@);
            }
        }
        let ghost o = crate::constraint::store_view(out@);
        out.insert(p, x);
        let ghost n = crate::constraint::store_view(out@);
        assert(n =~= o.insert(p as int, x@));
        assert forall|i: int| 0 <= i < n.len() - 1 implies cmp_pairs(#[trigger] n[i], n[i + 1])
            <= 0 by {
            if i < p - 1 {
                assert(n[i] == o[i] && n[i + 1] == o[i + 1]);
            } else if i == p - 1 {
            } else if i == p {
            } else {
                assert(n[i] == o[i - 1] && n[i + 1] == o[i]);
            }
        }
    }
    out
}

} // verus!
