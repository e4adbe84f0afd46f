//! Search states, and the effect of one equality or disequality on them.
use vstd::prelude::*;
use crate::term::{Term, Var};
use crate::subst::Subst;
use crate::unify::{Unify, unify};
use crate::constraint::{Constraint, store_view, recheck, verify, copy_constraint};

verus! {

/// A substitution with its disequality store, and the number of suspensions
/// taken on the way to it.
pub struct State {
    pub map: Subst,
    pub constraints: Vec<Constraint>,
    pub depth: u32,
}

/// A substitution and a store, as values.
pub type Store = (Seq<Option<Term>>, Seq<Seq<(Var, Term)>>);

impl View for State {
    type V = Store;

    open spec fn view(&self) -> Store {
        (self.map@, store_view(self.constraints@))
    }
}

/// The outcome of `a ≡ b` on `s`: `None` when it fails. A unification that
/// adds nothing leaves `s` as it is; one that adds bindings re-checks the
/// store, which fails when a constraint becomes violated.
pub open spec fn eq_result(a: Term, b: Term, s: Store) -> Option<Store> {
    match unify(a, b, (s.0, Seq::empty())) {
        None => None,
        Some(u) => if u.1.len() == 0 {
            Some(s)
        } else {
            match recheck(u.0, s.1) {
                None => None,
                Some(kept) => Some((u.0, kept)),
            }
        },
    }
}

/// The outcome of `a ≢ b` on `s`: success unchanged when `a` and `b`
/// cannot be unified, failure when they already are equal, and otherwise the
/// bindings their unification would add, kept as a new constraint.
pub open spec fn neq_result(a: Term, b: Term, s: Store) -> Option<Store> {
    match unify(a, b, (s.0, Seq::empty())) {
        None => Some(s),
        Some(u) => if u.1.len() == 0 {
            None
        } else {
            Some((s.0, s.1.push(u.1)))
        },
    }
}

impl State {
    /// The state a query starts from.
    pub fn new() -> (r: State)
        ensures
            r@ == (Seq::<Option<Term>>::empty(), Seq::<Seq<(Var, Term)>>::empty()),
            r.depth == 0,
    {
        let r = State { map: Subst::new(), constraints: Vec::new(), depth: 0 };
        assert(store_view(r.constraints@) =~= Seq::<Seq<(Var, Term)>>::empty());
        r
    }

    /// A copy of the state.
    pub fn copy(&self) -> (r: State)
        ensures
            r@ == self@,
            r.depth == self.depth,
    {
        let mut cs: Vec<Constraint> = Vec::new();
        let mut i: usize = 0;
        while i < self.constraints.len()
            invariant
                0 <= i <= self.constraints.len(),
                store_view(self.constraints@).len() == self.constraints.len(),
                store_view(cs@) == store_view(self.constraints@).subrange(0, i as int),
            decreases self.constraints.len() - i,
        {
            let ghost before = cs@;
            let c = copy_constraint(&self.constraints[i]);
            cs.push(c);
            assert(store_view(cs@) =~= store_view(before).push(c@));
            i = i + 1;
            assert(store_view(cs@) =~= store_view(self.constraints@).subrange(0, i as int));
        }
        assert(store_view(self.constraints@).subrange(0, i as int) =~= store_view(
            self.constraints@,
        ));
        State { map: self.map.copy(), constraints: cs, depth: self.depth }
    }

    /// The term variable `v` stands for: see [`crate::subst::deep_walk`].
    pub fn resolve(&self, v: Var) -> (r: Term)
        ensures
            r == crate::subst::deep_walk(Term::Var(v, crate::term::TermType::Any), self.map@),
    {
        self.map.deep_walk(&Term::Var(v, crate::term::TermType::Any))
    }

    /// Conjoins `a ≡ b`: see [`eq_result`].
    pub fn solve_eq(&self, a: &Term, b: &Term) -> (r: Option<State>)
        ensures
            r matches Some(s) ==> eq_result(*a, *b, self@) == Some(s@) && s.depth == self.depth,
            r is None ==> eq_result(*a, *b, self@) is None,
    {
        let mut u = Unify::new(self.map.copy());
        if !u.unify(a, b) {
            return None;
        }

        if u.new.len() == 0 {
            return Some(self.copy());
        }
        match verify(&u.map, &self.constraints) {
            Some(kept) => Some(State { map: u.map, constraints: kept, depth: self.depth }),
            None => None,
        }
    }

    /// Conjoins `a ≢ b`: see [`neq_result`].
    pub fn solve_neq(&self, a: &Term, b: &Term) -> (r: Option<State>)
        ensures
            r matches Some(s) ==> neq_result(*a, *b, self@) == Some(s@) && s.depth == self.depth,
            r matches Some(s) ==> s.map@ == self.map@,
            r is None ==> neq_result(*a, *b, self@) is None,
    {
        let mut u = Unify::new(self.map.copy());
        if !u.unify(a, b) {
            return Some(self.copy());
        }
        if u.new.len() == 0 {
            return None;
        }
        let mut s = self.copy();
        let ghost before = s.constraints@;
        s.constraints.push(u.new);
        assert(store_view(s.constraints@) =~= store_view(before).push(u.new@));
        Some(s)
    }
}

} // verus!
