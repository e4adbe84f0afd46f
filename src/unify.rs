//! Unification of two terms under a substitution, recording each binding
//! it adds.
use vstd::prelude::*;
use crate::term::{Term, TermType, Var};
use crate::subst::{Subst, walk, bind, DEPTH};

verus! {

/// Meet of two type bounds: equal bounds meet in themselves, `Any` gives
/// way to the other, and `Number` and `String` do not meet.
pub open spec fn meet(a: TermType, b: TermType) -> Option<TermType> {
    if a == b {
        Some(a)
    } else if a == TermType::Any {
        Some(b)
    } else if b == TermType::Any {
        Some(a)
    } else {
        None
    }
}

/// See [`meet`].
pub fn unify_type(a: TermType, b: TermType) -> (r: Option<TermType>)
    ensures
        r == meet(a, b),
{
    match (a, b) {
        (TermType::Any, _) => Some(b),
        (_, TermType::Any) => Some(a),
        (TermType::Number, TermType::Number) => Some(a),
        (TermType::String, TermType::String) => Some(a),
        _ => None,
    }
}

/// What unification does with two walked terms.
pub enum Step {
    /// They are already equal, or the sentinel admits the atom.
    Same,
    /// They cannot be made equal.
    Clash,
    /// Bind the variable to the term.
    Bind(Var, Term),
    /// Two distinct variables: the larger is bound to the smaller, which
    /// carries the met type.
    Join(Var, Var, TermType),
    /// Two pairs: unify the heads, then the tails.
    Pairs(Term, Term, Term, Term),
}

pub open spec fn is_var_or_type(t: Term) -> bool {
    t is Var || t is Type
}

/// Whether an atom lies in the domain of a type bound other than `Any`.
pub open spec fn in_domain(ty: TermType, t: Term) -> bool {
    (ty == TermType::Number && t is Value) || (ty == TermType::String && t is String)
}

/// The action for two walked terms, case by case in the order below.
pub open spec fn decide(x: Term, y: Term) -> Step {
    match (x, y) {
        (Term::Var(a, at), Term::Var(b, bt)) => {
            if a == b {
                Step::Same
            } else {
                match meet(at, bt) {
                    Some(t) => if a.0 < b.0 {
                        Step::Join(b, a, t)
                    } else {
                        Step::Join(a, b, t)
                    },
                    None => Step::Clash,
                }
            }
        },
        (Term::Value(a), Term::Value(b)) => if a == b { Step::Same } else { Step::Clash },
        (Term::String(a), Term::String(b)) => if a@ == b@ { Step::Same } else { Step::Clash },
        (Term::Type(a), Term::Type(b)) => if a == b { Step::Same } else { Step::Clash },
        (Term::Null, Term::Null) => Step::Same,
        (Term::Cons(h1, t1), Term::Cons(h2, t2)) => Step::Pairs(*h1, *h2, *t1, *t2),
        (Term::Type(ty), Term::Var(v, vt)) => decide_var_type(v, vt, ty),
        (Term::Var(v, vt), Term::Type(ty)) => decide_var_type(v, vt, ty),
        (Term::Type(ty), t) => decide_type_atom(ty, t),
        (t, Term::Type(ty)) => decide_type_atom(ty, t),
        (Term::Var(v, vt), t) => decide_var_atom(v, vt, t),
        (t, Term::Var(v, vt)) => decide_var_atom(v, vt, t),
        _ => Step::Clash,
    }
}

/// A variable against a sentinel: an untyped variable takes the sentinel's
/// type; a typed one must already have it.
pub open spec fn decide_var_type(v: Var, vt: TermType, ty: TermType) -> Step {
    if vt == TermType::Any {
        if ty == TermType::Any {
            Step::Same
        } else {
            Step::Bind(v, Term::Var(v, ty))
        }
    } else if vt == ty {
        Step::Same
    } else {
        Step::Clash
    }
}

/// A sentinel against an atom or pair.
pub open spec fn decide_type_atom(ty: TermType, t: Term) -> Step {
    if ty == TermType::Any || in_domain(ty, t) {
        Step::Same
    } else {
        Step::Clash
    }
}

/// A variable against an atom or pair.
pub open spec fn decide_var_atom(v: Var, vt: TermType, t: Term) -> Step {
    if vt == TermType::Any || in_domain(vt, t) {
        Step::Bind(v, t)
    } else {
        Step::Clash
    }
}

/// The substitution being built, and the bindings added so far in order.
pub type Trail = (Seq<Option<Term>>, Seq<(Var, Term)>);

pub open spec fn extend(u: Trail, v: Var, t: Term) -> Trail {
    (bind(u.0, v, t), u.1.push((v, t)))
}

/// Unification of `a` and `b` from `u`, descending into pairs at most `n`
/// deep: the extended trail, or `None` when the terms cannot be made equal.
pub open spec fn unify_n(a: Term, b: Term, u: Trail, n: nat) -> Option<Trail>
    decreases n,
{
    match decide(walk(a, u.0), walk(b, u.0)) {
        Step::Same => Some(u),
        Step::Clash => None,
        Step::Bind(v, t) => Some(extend(u, v, t)),
        Step::Join(big, small, t) => {
            let u1 = extend(u, big, Term::Var(small, t));
            if t == TermType::Any {
                Some(u1)
            } else {
                Some(extend(u1, small, Term::Var(small, t)))
            }
        },
        Step::Pairs(h1, h2, t1, t2) => {
            if n == 0 {
                None
            } else {
                match unify_n(h1, h2, u, (n - 1) as nat) {
                    Some(u2) => unify_n(t1, t2, u2, (n - 1) as nat),
                    None => None,
                }
            }
        },
    }
}

/// Unification of `a` and `b` from `u`.
pub open spec fn unify(a: Term, b: Term, u: Trail) -> Option<Trail> {
    unify_n(a, b, u, DEPTH as nat)
}

fn decide_var_type_exec(v: Var, vt: TermType, ty: TermType) -> (r: Step)
    ensures
        r == decide_var_type(v, vt, ty),
{
    if vt == TermType::Any {
        if ty == TermType::Any {
            Step::Same
        } else {
            Step::Bind(v, Term::Var(v, ty))
        }
    } else if vt == ty {
        Step::Same
    } else {
        Step::Clash
    }
}

fn in_domain_exec(ty: TermType, t: &Term) -> (r: bool)
    ensures
        r == in_domain(ty, *t),
{
    match (ty, t) {
        (TermType::Number, Term::Value(_)) => true,
        (TermType::String, Term::String(_)) => true,
        _ => false,
    }
}

/// See [`decide`].
pub fn decide_exec(x: &Term, y: &Term) -> (r: Step)
    ensures
        r == decide(*x, *y),
{
    match (x, y) {
        (Term::Var(a, at), Term::Var(b, bt)) => {
            if a.0 == b.0 {
                Step::Same
            } else {
                match unify_type(*at, *bt) {
                    Some(t) => if a.0 < b.0 {
                        Step::Join(*b, *a, t)
                    } else {
                        Step::Join(*a, *b, t)
                    },
                    None => Step::Clash,
                }
            }
        },
        (Term::Value(a), Term::Value(b)) => if *a == *b { Step::Same } else { Step::Clash },
        (Term::String(a), Term::String(b)) => if *a == *b { Step::Same } else { Step::Clash },
        (Term::Type(a), Term::Type(b)) => if *a == *b { Step::Same } else { Step::Clash },
        (Term::Null, Term::Null) => Step::Same,
        (Term::Cons(h1, t1), Term::Cons(h2, t2)) => Step::Pairs(
            (**h1).clone(),
            (**h2).clone(),
            (**t1).clone(),
            (**t2).clone(),
        ),
        (Term::Type(ty), Term::Var(v, vt)) => decide_var_type_exec(*v, *vt, *ty),
        (Term::Var(v, vt), Term::Type(ty)) => decide_var_type_exec(*v, *vt, *ty),
        (Term::Type(ty), t) => {
            if *ty == TermType::Any || in_domain_exec(*ty, t) {
                Step::Same
            } else {
                Step::Clash
            }
        },
        (t, Term::Type(ty)) => {
            if *ty == TermType::Any || in_domain_exec(*ty, t) {
                Step::Same
            } else {
                Step::Clash
            }
        },
        (Term::Var(v, vt), t) => {
            if *vt == TermType::Any || in_domain_exec(*vt, t) {
                Step::Bind(*v, t.clone())
            } else {
                Step::Clash
            }
        },
        (t, Term::Var(v, vt)) => {
            if *vt == TermType::Any || in_domain_exec(*vt, t) {
                Step::Bind(*v, t.clone())
            } else {
                Step::Clash
            }
        },
        _ => Step::Clash,
    }
}

/// A unification in progress: the substitution and the bindings it added.
pub struct Unify {
    pub map: Subst,
    pub new: Vec<(Var, Term)>,
}

impl View for Unify {
    type V = Trail;

    open spec fn view(&self) -> Trail {
        (self.map@, self.new@)
    }
}

impl Unify {
    /// Starts from `map`, with nothing added.
    pub fn new(map: Subst) -> (r: Unify)
        ensures
            r@ == (map@, Seq::<(Var, Term)>::empty()),
    {
        Unify { map, new: Vec::new() }
    }

    /// Binds `var` to `term` and records the binding; a variable may only be
    /// bound to itself or a smaller variable.
    pub fn extend(&mut self, var: Var, term: Term)
        requires
            term matches Term::Var(y, _) ==> y.0 <= var.0,
        ensures
            final(self)@ == extend(old(self)@, var, term),
    {
        self.new.push((var, term.clone()));
        self.map.insert(var, term);
    }

    fn unify_n(&mut self, a: &Term, b: &Term, n: u64) -> (ok: bool)
        ensures
            ok == unify_n(*a, *b, old(self)@, n as nat) is Some,
            ok ==> final(self)@ == unify_n(*a, *b, old(self)@, n as nat)->Some_0,
        decreases n,
    {
        let step = decide_exec(self.map.walk(a), self.map.walk(b));
        match step {
            Step::Same => true,
            Step::Clash => false,
            Step::Bind(v, t) => {
                self.extend(v, t);
                true
            },
            Step::Join(big, small, t) => {
                self.extend(big, Term::Var(small, t));
                if t != TermType::Any {
                    self.extend(small, Term::Var(small, t));
                }
                true
            },
            Step::Pairs(h1, h2, t1, t2) => {
                if n == 0 {
                    false
                } else if self.unify_n(&h1, &h2, n - 1) {
                    self.unify_n(&t1, &t2, n - 1)
                } else {
                    false
                }
            },
        }
    }

    /// Extends the substitution until `a` and `b` are equal under it; false
    /// when they cannot be (the substitution is then to be dropped).
    pub fn unify(&mut self, a: &Term, b: &Term) -> (ok: bool)
        ensures
            ok == unify(*a, *b, old(self)@) is Some,
            ok ==> final(self)@ == unify(*a, *b, old(self)@)->Some_0,
    {
        self.unify_n(a, b, DEPTH)
    }
}

} // verus!
