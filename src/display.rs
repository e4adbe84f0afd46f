//! Rendering of terms and answers as S-expressions: variables as `_n`
//! (`#n` for a number variable, `*n` for a string one), the sentinels as
//! `_`, `#` and `*`, pairs in list form with ` . ` before an improper tail,
//! and an answer with residual constraints as `<values> : <constraints>`.
use vstd::prelude::*;
use vstd::string::{StringExecFns, StrSliceExecFns};
use crate::term::{Term, TermType, Var};
use crate::constraint::Constraint;
use crate::query::StateN;
use crate::project::{reify, purify, purified, query_var, same_constraints};
use crate::subst::deep_walk;
use crate::constraint::store_view;
use crate::order::constraints_sorted;

verus! {

pub open spec fn digit(d: nat) -> Seq<char> {
    if d == 0 {
        "0"@
    } else if d == 1 {
        "1"@
    } else if d == 2 {
        "2"@
    } else if d == 3 {
        "3"@
    } else if d == 4 {
        "4"@
    } else if d == 5 {
        "5"@
    } else if d == 6 {
        "6"@
    } else if d == 7 {
        "7"@
    } else if d == 8 {
        "8"@
    } else {
        "9"@
    }
}

/// The decimal digits of `n`.
pub open spec fn decimal(n: nat) -> Seq<char>
    decreases n,
{
    if n < 10 {
        digit(n)
    } else {
        decimal(n / 10) + digit(n % 10)
    }
}

/// An integer in decimal, with a leading `-` when negative.
pub open spec fn show_int(i: int) -> Seq<char> {
    if i < 0 {
        "-"@ + decimal((-i) as nat)
    } else {
        decimal(i as nat)
    }
}

pub open spec fn show_type(t: TermType) -> Seq<char> {
    match t {
        TermType::Any => "_"@,
        TermType::Number => "#"@,
        TermType::String => "*"@,
    }
}

/// A string atom, in double quotes when it holds a space.
pub open spec fn show_str(s: Seq<char>) -> Seq<char> {
    if s.contains(' ') {
        "\""@ + s + "\""@
    } else {
        s
    }
}

pub open spec fn show_term(t: Term) -> Seq<char>
    decreases t, 0int,
{
    match t {
        Term::Type(ty) => show_type(ty),
        Term::Value(i) => show_int(i as int),
        Term::String(s) => show_str(s@),
        Term::Var(v, ty) => show_type(ty) + show_int(v.0 as int),
        Term::Null => "()"@,
        Term::Cons(h, tl) => "("@ + show_term(*h) + show_tail(*tl) + ")"@,
    }
}

/// What follows the head of a list: the other elements, each after a
/// space, and an improper tail after ` . `.
pub open spec fn show_tail(t: Term) -> Seq<char>
    decreases t, 1int,
{
    match t {
        Term::Null => Seq::empty(),
        Term::Cons(h, tl) => " "@ + show_term(*h) + show_tail(*tl),
        _ => " . "@ + show_term(t),
    }
}

/// A binding of a constraint.
pub open spec fn show_pair(p: (Var, Term)) -> Seq<char> {
    "(_"@ + show_int(p.0.0 as int) + " . "@ + show_term(p.1) + ")"@
}

/// Items separated by single spaces.
pub open spec fn joined(items: Seq<Seq<char>>) -> Seq<char>
    decreases items.len(),
{
    if items.len() == 0 {
        Seq::empty()
    } else if items.len() == 1 {
        items[0]
    } else {
        joined(items.drop_last()) + " "@ + items.last()
    }
}

/// Items in parentheses, separated by single spaces.
pub open spec fn show_list(items: Seq<Seq<char>>) -> Seq<char> {
    "("@ + joined(items) + ")"@
}

pub open spec fn show_terms(ts: Seq<Term>) -> Seq<char> {
    show_list(ts.map_values(|t: Term| show_term(t)))
}

pub open spec fn show_constraint(c: Seq<(Var, Term)>) -> Seq<char> {
    show_list(c.map_values(|p: (Var, Term)| show_pair(p)))
}

pub open spec fn show_constraints(cs: Seq<Seq<(Var, Term)>>) -> Seq<char> {
    show_list(cs.map_values(|c: Seq<(Var, Term)>| show_constraint(c)))
}

/// An answer: the values of the query variables, then ` : ` and the
/// residual constraints when there are any.
pub open spec fn show_answer(values: Seq<Term>, cs: Seq<Seq<(Var, Term)>>) -> Seq<char> {
    if cs.len() == 0 {
        show_terms(values)
    } else {
        show_terms(values) + " : "@ + show_constraints(cs)
    }
}

fn push_digit(out: &mut String, d: u64)
    requires
        d < 10,
    ensures
        final(out)@ == old(out)@ + digit(d as nat),
{
    if d == 0 {
        out.append("0");
    } else if d == 1 {
        out.append("1");
    } else if d == 2 {
        out.append("2");
    } else if d == 3 {
        out.append("3");
    } else if d == 4 {
        out.append("4");
    } else if d == 5 {
        out.append("5");
    } else if d == 6 {
        out.append("6");
    } else if d == 7 {
        out.append("7");
    } else if d == 8 {
        out.append("8");
    } else {
        out.append("9");
    }
}

fn push_decimal(out: &mut String, n: u64)
    ensures
        final(out)@ == old(out)@ + decimal(n as nat),
    decreases n,
{
    if n >= 10 {
        push_decimal(out, n / 10);
        push_digit(out, n % 10);
        assert(final(out)@ =~= old(out)@ + decimal(n as nat));
    } else {
        push_digit(out, n);
    }
}

fn push_int(out: &mut String, i: i64)
    requires
        i > i64::MIN,
    ensures
        final(out)@ == old(out)@ + show_int(i as int),
{
    if i < 0 {
        out.append("-");
        push_decimal(out, (-i) as u64);
        assert(final(out)@ =~= old(out)@ + show_int(i as int));
    } else {
        push_decimal(out, i as u64);
    }
}

fn push_type(out: &mut String, t: TermType)
    ensures
        final(out)@ == old(out)@ + show_type(t),
{
    match t {
        TermType::Any => out.append("_"),
        TermType::Number => out.append("#"),
        TermType::String => out.append("*"),
    }
}

fn has_space(s: &str) -> (r: bool)
    ensures
        r == s@.contains(' '),
{
    let n = s.unicode_len();
    let mut i: usize = 0;
    while i < n
        invariant
            n == s@.len(),
            0 <= i <= n,
            forall|j: int| 0 <= j < i ==> s@[j] != ' ',
        decreases n - i,
    {
        if s.get_char(i) == ' ' {
            return true;
        }
        i = i + 1;
    }
    false
}

/// Appends the rendering of `t`.
pub fn push_term(out: &mut String, t: &Term)
    ensures
        final(out)@ == old(out)@ + show_term(*t),
    decreases t, 0int,
{
    match t {
        Term::Type(ty) => push_type(out, *ty),
        Term::Value(i) => push_int(out, *i as i64),
        Term::String(s) => {
            if has_space(s.as_str()) {
                out.append("\"");
                out.append(s.as_str());
                out.append("\"");
                assert(final(out)@ =~= old(out)@ + show_term(*t));
            } else {
                out.append(s.as_str());
            }
        },
        Term::Var(v, ty) => {
            push_type(out, *ty);
            push_int(out, v.0 as i64);
            assert(final(out)@ =~= old(out)@ + show_term(*t));
        },
        Term::Null => out.append("()"),
        Term::Cons(h, tl) => {
            out.append("(");
            push_term(out, &**h);
            push_tail(out, &**tl);
            out.append(")");
            assert(final(out)@ =~= old(out)@ + show_term(*t));
        },
    }
}

fn push_tail(out: &mut String, t: &Term)
    ensures
        final(out)@ == old(out)@ + show_tail(*t),
    decreases t, 1int,
{
    match t {
        Term::Null => {
            assert(final(out)@ =~= old(out)@ + show_tail(*t));
        },
        Term::Cons(h, tl) => {
            out.append(" ");
            push_term(out, &**h);
            push_tail(out, &**tl);
            assert(final(out)@ =~= old(out)@ + show_tail(*t));
        },
        _ => {
            out.append(" . ");
            push_term(out, t);
            assert(final(out)@ =~= old(out)@ + show_tail(*t));
        },
    }
}

/// Appends the rendering of a binding of a constraint.
pub fn push_pair(out: &mut String, p: &(Var, Term))
    ensures
        final(out)@ == old(out)@ + show_pair(*p),
{
    out.append("(_");
    push_int(out, p.0.0 as i64);
    out.append(" . ");
    push_term(out, &p.1);
    out.append(")");
    assert(final(out)@ =~= old(out)@ + show_pair(*p));
}

/// Appends the values of the query variables as a list.
pub fn push_terms(out: &mut String, ts: &Vec<Term>)
    ensures
        final(out)@ == old(out)@ + show_terms(ts@),
{
    let ghost items = ts@.map_values(|t: Term| show_term(t));
    out.append("(");
    let ghost start = out@;
    let mut i: usize = 0;
    while i < ts.len()
        invariant
            0 <= i <= ts.len(),
            items == ts@.map_values(|t: Term| show_term(t)),
            out@ == start + joined(items.subrange(0, i as int)),
        decreases ts.len() - i,
    {
        let ghost pre = items.subrange(0, i + 1);
        assert(pre.drop_last() =~= items.subrange(0, i as int));
        if i > 0 {
            out.append(" ");
        }
        push_term(out, &ts[i]);
        if i == 0 {
            assert(out@ =~= start + joined(pre));
        } else {
            assert(out@ =~= start + joined(pre));
        }
        i = i + 1;
    }
    assert(items.subrange(0, ts.len() as int) =~= items);
    out.append(")");
    assert(final(out)@ =~= old(out)@ + show_terms(ts@));
}

/// Appends a constraint as a list of bindings.
pub fn push_constraint(out: &mut String, c: &Constraint)
    ensures
        final(out)@ == old(out)@ + show_constraint(c@),
{
    let ghost items = c@.map_values(|p: (Var, Term)| show_pair(p));
    out.append("(");
    let ghost start = out@;
    let mut i: usize = 0;
    while i < c.len()
        invariant
            0 <= i <= c.len(),
            items == c@.map_values(|p: (Var, Term)| show_pair(p)),
            out@ == start + joined(items.subrange(0, i as int)),
        decreases c.len() - i,
    {
        let ghost pre = items.subrange(0, i + 1);
        assert(pre.drop_last() =~= items.subrange(0, i as int));
        if i > 0 {
            out.append(" ");
        }
        push_pair(out, &c[i]);
        assert(out@ =~= start + joined(pre));
        i = i + 1;
    }
    assert(items.subrange(0, c.len() as int) =~= items);
    out.append(")");
    assert(final(out)@ =~= old(out)@ + show_constraint(c@));
}

/// Appends constraints as a list.
pub fn push_constraints(out: &mut String, cs: &Vec<Constraint>)
    ensures
        final(out)@ == old(out)@ + show_constraints(crate::constraint::store_view(cs@)),
{
    let ghost sv = crate::constraint::store_view(cs@);
    let ghost items = sv.map_values(|c: Seq<(Var, Term)>| show_constraint(c));
    out.append("(");
    let ghost start = out@;
    let mut i: usize = 0;
    while i < cs.len()
        invariant
            0 <= i <= cs.len(),
            sv == crate::constraint::store_view(cs@),
            items == sv.map_values(|c: Seq<(Var, Term)>| show_constraint(c)),
            out@ == start + joined(items.subrange(0, i as int)),
        decreases cs.len() - i,
    {
        let ghost pre = items.subrange(0, i + 1);
        assert(pre.drop_last() =~= items.subrange(0, i as int));
        if i > 0 {
            out.append(" ");
        }
        push_constraint(out, &cs[i]);
        assert(out@ =~= start + joined(pre));
        i = i + 1;
    }
    assert(items.subrange(0, cs.len() as int) =~= items);
    out.append(")");
    assert(final(out)@ =~= old(out)@ + show_constraints(sv));
}

/// Appends an answer given its values and residual constraints.
pub fn push_answer(out: &mut String, values: &Vec<Term>, cs: &Vec<Constraint>)
    ensures
        final(out)@ == old(out)@ + show_answer(values@, crate::constraint::store_view(cs@)),
{
    push_terms(out, values);
    if cs.len() > 0 {
        out.append(" : ");
        push_constraints(out, cs);
        assert(final(out)@ =~= old(out)@ + show_answer(
            values@,
            crate::constraint::store_view(cs@),
        ));
    }
}

/// Types whose S-expression rendering the library provides.
pub trait DisplayScheme {
    /// `s` is a rendering of `self`.
    spec fn shown(&self, s: Seq<char>) -> bool;

    /// Appends a rendering of `self` to `out`.
    fn fmt(&self, out: &mut String)
        ensures
            exists|s: Seq<char>| final(out)@ == old(out)@ + s && self.shown(s),
    ;
}

impl DisplayScheme for Term {
    open spec fn shown(&self, s: Seq<char>) -> bool {
        s == show_term(*self)
    }

    fn fmt(&self, out: &mut String) {
        push_term(out, self);
        assert(self.shown(show_term(*self)));
    }
}

impl DisplayScheme for (Var, Term) {
    open spec fn shown(&self, s: Seq<char>) -> bool {
        s == show_pair(*self)
    }

    fn fmt(&self, out: &mut String) {
        push_pair(out, self);
        assert(self.shown(show_pair(*self)));
    }
}

/// The values of the first `n` query variables under `m`.
pub open spec fn values_of(m: Seq<Option<Term>>, n: nat) -> Seq<Term> {
    Seq::new(n, |i: int| deep_walk(query_var(i), m))
}

/// The number of query variables an answer is shown with.
pub open spec fn shown_arity(n: usize) -> nat {
    if n <= u32::MAX {
        n as nat
    } else {
        u32::MAX as nat
    }
}

impl DisplayScheme for StateN {
    /// The values of the query variables, and the residual constraints in
    /// canonical order when there are any.
    open spec fn shown(&self, s: Seq<char>) -> bool {
        exists|cs: Seq<Seq<(Var, Term)>>|
            #![trigger show_answer(values_of(self.state.map@, shown_arity(self.n)), cs)]
            constraints_sorted(cs) && same_constraints(
                cs,
                purified(self.state, shown_arity(self.n)),
            ) && s == show_answer(
                values_of(self.state.map@, shown_arity(self.n)),
                cs,
            )
    }

    fn fmt(&self, out: &mut String) {
        let n = if self.n <= u32::MAX as usize { self.n } else { u32::MAX as usize };
        let values = reify(&self.state, n);
        let cs = purify(&self.state, n);
        let ghost before = out@;
        push_answer(out, &values, &cs);
        assert(values@ =~= values_of(self.state.map@, shown_arity(self.n)));
        assert(final(out)@ == before + show_answer(values@, store_view(cs@)));
        assert(self.shown(show_answer(values@, store_view(cs@))));
    }
}

impl<T: DisplayScheme> DisplayScheme for Vec<T> {
    /// The elements in parentheses, separated by spaces.
    open spec fn shown(&self, s: Seq<char>) -> bool {
        exists|items: Seq<Seq<char>>|
            #![trigger show_list(items)]
            items.len() == self@.len() && (forall|i: int|
                0 <= i < items.len() ==> self@[i].shown(#[trigger] items[i])) && s == show_list(items)
    }

    fn fmt(&self, out: &mut String) {
        out.append("(");
        let ghost start = out@;
        let ghost mut items: Seq<Seq<char>> = Seq::empty();
        let mut i: usize = 0;
        while i < self.len()
            invariant
                0 <= i <= self.len(),
                items.len() == i,
                forall|j: int| 0 <= j < i ==> self@[j].shown(#[trigger] items[j]),
                out@ == start + joined(items),
            decreases self.len() - i,
        {
            let ghost prev = items;
            if i > 0 {
                out.append(" ");
            }
            let ghost mid = out@;
            self[i].fmt(out);
            let ghost piece = choose|p: Seq<char>| out@ == mid + p && self@[i as int].shown(p);
            proof {
                items = items.push(piece);
                assert(items.drop_last() =~= prev);
                assert(out@ =~= start + joined(items));
            }
            i = i + 1;
        }
        out.append(")");
        assert(final(out)@ =~= old(out)@ + show_list(items));
        assert(self.shown(show_list(items)));
    }
}

/// A value shown as an S-expression.
pub struct AsScheme<T>(pub T);

impl<T: DisplayScheme> AsScheme<T> {
    /// The rendering of the value.
    pub fn to_string(&self) -> (r: String)
        ensures
            self.0.shown(r@),
    {
        let mut out = String::new();
        self.0.fmt(&mut out);
        assert(out@ =~= Seq::<char>::empty() + (out@));
        out
    }
}

/// A borrowed value shown as an S-expression.
pub struct Scheme<'a, T>(pub &'a T);

impl<'a, T: DisplayScheme> Scheme<'a, T> {
    /// The rendering of the value.
    pub fn to_string(&self) -> (r: String)
        ensures
            self.0.shown(r@),
    {
        let mut out = String::new();
        self.0.fmt(&mut out);
        out
    }
}

} // verus!
