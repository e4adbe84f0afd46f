//! Goals: equality, disequality, conjunction, disjunction, and the two
//! deferred forms, `Fresh` and `Yield`, whose bodies a [`Binding`] builds.
use vstd::prelude::*;
use crate::term::{Term, TermType, Var};

verus! {

/// The body of a deferred goal. A `Fresh` goal hands it `arity()` new
/// variables; a `Yield` goal hands it none.
pub trait Binding: Sized {
    /// The number of fresh variables the body takes. An implementation
    /// verified with the library defines it; otherwise it is left
    /// unspecified.
    open spec fn wanted(&self) -> nat {
        arbitrary()
    }

    /// The body built over `vars`. An implementation verified with the
    /// library defines it; otherwise it is left unspecified.
    open spec fn body(&self, vars: Seq<Var>) -> Goal<Self> {
        arbitrary()
    }

    /// See [`Binding::wanted`].
    fn arity(&self) -> (r: usize)
        ensures
            r == self.wanted(),
    ;

    /// Builds the body over `vars`: see [`Binding::body`].
    fn bind(&self, vars: &Vec<Var>) -> (r: Goal<Self>)
        ensures
            r == self.body(vars@),
    ;
}

/// A goal tree.
pub enum Goal<B> {
    Eq(Term, Term),
    Neq(Term, Term),
    Both(Box<Goal<B>>, Box<Goal<B>>),
    Either(Box<Goal<B>>, Box<Goal<B>>),
    /// Introduces fresh variables and runs the body built over them.
    Fresh(B),
    /// Suspends: the body is run when the search resumes this branch.
    Yield(B),
}

/// `a ≡ b`.
pub fn eq<B>(a: Term, b: Term) -> (r: Goal<B>)
    ensures
        r == Goal::<B>::Eq(a, b),
{
    Goal::Eq(a, b)
}

/// `a ≢ b`.
pub fn neq<B>(a: Term, b: Term) -> (r: Goal<B>)
    ensures
        r == Goal::<B>::Neq(a, b),
{
    Goal::Neq(a, b)
}

/// `a` is a number.
pub fn num<B>(a: Term) -> (r: Goal<B>)
    ensures
        r == Goal::<B>::Eq(a, Term::Type(TermType::Number)),
{
    Goal::Eq(a, Term::Type(TermType::Number))
}

/// `a` is a string.
pub fn str<B>(a: Term) -> (r: Goal<B>)
    ensures
        r == Goal::<B>::Eq(a, Term::Type(TermType::String)),
{
    Goal::Eq(a, Term::Type(TermType::String))
}

/// Conjunction.
pub fn both<B>(a: Goal<B>, b: Goal<B>) -> (r: Goal<B>)
    ensures
        r == Goal::<B>::Both(Box::new(a), Box::new(b)),
{
    Goal::Both(Box::new(a), Box::new(b))
}

/// Disjunction.
pub fn either<B>(a: Goal<B>, b: Goal<B>) -> (r: Goal<B>)
    ensures
        r == Goal::<B>::Either(Box::new(a), Box::new(b)),
{
    Goal::Either(Box::new(a), Box::new(b))
}

/// Runs the body of `f` over `f.arity()` fresh variables.
pub fn fresh<B: Binding>(f: B) -> (r: Goal<B>)
    ensures
        r == Goal::<B>::Fresh(f),
{
    Goal::Fresh(f)
}

/// Suspends the body of `f` until the search resumes this branch.
pub fn jield<B: Binding>(f: B) -> (r: Goal<B>)
    ensures
        r == Goal::<B>::Yield(f),
{
    Goal::Yield(f)
}

/// The goal that always succeeds and changes nothing.
pub open spec fn succeed_goal<B>() -> Goal<B> {
    Goal::Eq(Term::Null, Term::Null)
}

/// The goal that always fails.
pub open spec fn fail_goal<B>() -> Goal<B> {
    Goal::Eq(Term::Null, Term::Value(0))
}

/// The right fold of `gs` with `Both`; the empty conjunction succeeds.
pub open spec fn conj<B>(gs: Seq<Goal<B>>) -> Goal<B>
    decreases gs.len(),
{
    if gs.len() == 0 {
        succeed_goal()
    } else if gs.len() == 1 {
        gs[0]
    } else {
        Goal::Both(Box::new(gs[0]), Box::new(conj(gs.drop_first())))
    }
}

/// The right fold of `gs` with `Either`; the empty disjunction fails.
pub open spec fn disj<B>(gs: Seq<Goal<B>>) -> Goal<B>
    decreases gs.len(),
{
    if gs.len() == 0 {
        fail_goal()
    } else if gs.len() == 1 {
        gs[0]
    } else {
        Goal::Either(Box::new(gs[0]), Box::new(disj(gs.drop_first())))
    }
}

/// The conjunction of `v`: see [`conj`].
pub fn all<B>(v: Vec<Goal<B>>) -> (r: Goal<B>)
    ensures
        r == conj(v@),
{
    let ghost gs = v@;
    let mut v = v;
    if v.len() == 0 {
        return Goal::Eq(Term::Null, Term::Null);
    }
    let mut acc = v.pop().unwrap();
    assert(gs.subrange(gs.len() - 1, gs.len() as int) =~= seq![acc]);
    while v.len() > 0
        invariant
            v@ == gs.subrange(0, v.len() as int),
            0 < gs.len(),
            v.len() < gs.len(),
            acc == conj(gs.subrange(v.len() as int, gs.len() as int)),
        decreases v.len(),
    {
        let g = v.pop().unwrap();
        let ghost k = v.len() as int;
        let ghost s = gs.subrange(k, gs.len() as int);
        assert(s.drop_first() =~= gs.subrange(k + 1, gs.len() as int));
        acc = Goal::Both(Box::new(g), Box::new(acc));
    }
    assert(gs.subrange(0, gs.len() as int) =~= gs);
    acc
}

/// The disjunction of `v`: see [`disj`].
pub fn any<B>(v: Vec<Goal<B>>) -> (r: Goal<B>)
    ensures
        r == disj(v@),
{
    let ghost gs = v@;
    let mut v = v;
    if v.len() == 0 {
        return Goal::Eq(Term::Null, Term::Value(0));
    }
    let mut acc = v.pop().unwrap();
    assert(gs.subrange(gs.len() - 1, gs.len() as int) =~= seq![acc]);
    while v.len() > 0
        invariant
            v@ == gs.subrange(0, v.len() as int),
            0 < gs.len(),
            v.len() < gs.len(),
            acc == disj(gs.subrange(v.len() as int, gs.len() as int)),
        decreases v.len(),
    {
        let g = v.pop().unwrap();
        let ghost k = v.len() as int;
        let ghost s = gs.subrange(k, gs.len() as int);
        assert(s.drop_first() =~= gs.subrange(k + 1, gs.len() as int));
        acc = Goal::Either(Box::new(g), Box::new(acc));
    }
    assert(gs.subrange(0, gs.len() as int) =~= gs);
    acc
}

/// The disjunction of the conjunctions of the rows of `table`.
pub fn cond<B>(table: Vec<Vec<Goal<B>>>) -> (r: Goal<B>)
    ensures
        r == disj(table@.map_values(|row: Vec<Goal<B>>| conj(row@))),
{
    let ghost rows = table@;
    let mut table = table;
    let mut conjs: Vec<Goal<B>> = Vec::new();
    let mut rev: Vec<Vec<Goal<B>>> = Vec::new();
    while table.len() > 0
        invariant
            table.len() + rev.len() == rows.len(),
            table@ == rows.subrange(0, table.len() as int),
            forall|j: int| 0 <= j < rev.len() ==> #[trigger] rev@[j] == rows[rows.len() - 1 - j],
        decreases table.len(),
    {
        let row = table.pop().unwrap();
        rev.push(row);
    }
    while rev.len() > 0
        invariant
            conjs.len() + rev.len() == rows.len(),
            forall|j: int| 0 <= j < rev.len() ==> #[trigger] rev@[j] == rows[rows.len() - 1 - j],
            forall|j: int| 0 <= j < conjs.len() ==> #[trigger] conjs@[j] == conj(rows[j]@),
        decreases rev.len(),
    {
        let row = rev.pop().unwrap();
        conjs.push(all(row));
    }
    assert(conjs@ =~= rows.map_values(|row: Vec<Goal<B>>| conj(row@)));
    any(conjs)
}

} // verus!
