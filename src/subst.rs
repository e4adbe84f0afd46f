//! Substitutions, walking a term through one, and unification.
use vstd::prelude::*;
use crate::term::{Term, TermType, Var};

verus! {

/// A bound on the nesting depth that deep walks and unification descend to.
/// Nesting this deep cannot be built in memory, so the bound is never met
/// unless a substitution loops through a pair; it only stops such a one.
pub const DEPTH: u64 = 0xffff_ffff_ffff_ffff;

/// The binding of variable `v` in `m`, where the slot `v.0` holds it.
pub open spec fn lookup(m: Seq<Option<Term>>, v: Var) -> Option<Term> {
    if (v.0 as int) < m.len() {
        m[v.0 as int]
    } else {
        None
    }
}

/// `m` with `v` bound to `t`, grown with empty slots where needed.
pub open spec fn bind(m: Seq<Option<Term>>, v: Var, t: Term) -> Seq<Option<Term>> {
    if (v.0 as int) < m.len() {
        m.update(v.0 as int, Some(t))
    } else {
        (m + Seq::new((v.0 - m.len()) as nat, |i: int| None::<Term>)).push(Some(t))
    }
}

/// The measure a walk descends on: the number of a variable.
pub open spec fn var_rank(t: Term) -> nat {
    match t {
        Term::Var(x, _) => x.0 as nat,
        _ => 0,
    }
}

/// The term `t` resolves to under `m`: bindings are followed until an
/// unbound variable or a non-variable is reached. A variable bound to
/// itself (with a type) stands for that binding. Bindings only ever lead
/// from a variable to a smaller one; a binding to a larger variable is not
/// followed.
pub open spec fn walk(t: Term, m: Seq<Option<Term>>) -> Term
    decreases var_rank(t),
{
    match t {
        Term::Var(x, _) => match lookup(m, x) {
            Some(q) => match q {
                Term::Var(y, _) => {
                    if y == x {
                        q
                    } else if y.0 < x.0 {
                        walk(q, m)
                    } else {
                        t
                    }
                },
                _ => q,
            },
            None => t,
        },
        _ => t,
    }
}

pub open spec fn deep_walk_n(t: Term, m: Seq<Option<Term>>, n: nat) -> Term
    decreases n,
{
    match walk(t, m) {
        Term::Cons(h, tl) => {
            if n == 0 {
                walk(t, m)
            } else {
                Term::Cons(
                    Box::new(deep_walk_n(*h, m, (n - 1) as nat)),
                    Box::new(deep_walk_n(*tl, m, (n - 1) as nat)),
                )
            }
        },
        w => w,
    }
}

/// `t` with every variable inside it resolved under `m`, pairs included.
pub open spec fn deep_walk(t: Term, m: Seq<Option<Term>>) -> Term {
    deep_walk_n(t, m, DEPTH as nat)
}

/// `t` is not a variable bound (other than to itself) in `m`.
pub open spec fn settled(m: Seq<Option<Term>>, t: Term) -> bool {
    match t {
        Term::Var(x, _) => match lookup(m, x) {
            None => true,
            Some(q) => q matches Term::Var(y, _) && y == x,
        },
        _ => true,
    }
}

/// Every binding of a variable to a variable leads to the same or a
/// smaller one; unification only ever adds such bindings.
pub open spec fn descending(m: Seq<Option<Term>>) -> bool {
    forall|z: Var|
        (#[trigger] lookup(m, z) is Some && lookup(m, z)->Some_0 is Var) ==> lookup(
            m,
            z,
        )->Some_0->Var_0.0 <= z.0
}

pub proof fn lemma_walk_settled(t: Term, m: Seq<Option<Term>>)
    requires
        descending(m),
    ensures
        settled(m, walk(t, m)),
    decreases var_rank(t),
{
    if let Term::Var(x, _) = t {
        if let Some(q) = lookup(m, x) {
            if let Term::Var(y, _) = q {
                if y != x && y.0 < x.0 {
                    lemma_walk_settled(q, m);
                }
            }
        }
    }
}

/// A partial map from variables to terms. Every binding of a variable to a
/// variable leads to the same or a smaller one, so walking follows every
/// binding to its end.
pub struct Subst {
    binds: Vec<Option<Term>>,
}

impl Subst {
    #[verifier::type_invariant]
    spec fn inv(&self) -> bool {
        descending(self.binds@)
    }
}

impl View for Subst {
    type V = Seq<Option<Term>>;

    closed spec fn view(&self) -> Seq<Option<Term>> {
        self.binds@
    }
}

impl Subst {
    /// The substitution with no bindings.
    pub fn new() -> (r: Subst)
        ensures
            r@ == Seq::<Option<Term>>::empty(),
    {
        let binds: Vec<Option<Term>> = Vec::new();
        assert forall|z: Var|
            (#[trigger] lookup(binds@, z) is Some && lookup(binds@, z)->Some_0 is Var) implies lookup(
            binds@,
            z,
        )->Some_0->Var_0.0 <= z.0 by {}
        Subst { binds }
    }


    /// A copy of the substitution.
    pub fn copy(&self) -> (r: Subst)
        ensures
            r@ == self@,
    {
        proof {
            use_type_invariant(self);
        }
        let mut binds: Vec<Option<Term>> = Vec::new();
        let mut i: usize = 0;
        while i < self.binds.len()
            invariant
                0 <= i <= self.binds.len(),
                binds@ == self.binds@.subrange(0, i as int),
            decreases self.binds.len() - i,
        {
            let b = match &self.binds[i] {
                Some(t) => Some(t.clone()),
                None => None,
            };
            binds.push(b);
            i = i + 1;
            assert(binds@ =~= self.binds@.subrange(0, i as int));
        }
        assert(self.binds@.subrange(0, self.binds.len() as int) =~= self.binds@);
        Subst { binds }
    }

    /// The binding of `v`, if any.
    pub fn get(&self, v: Var) -> (r: Option<&Term>)
        ensures
            r matches Some(t) ==> lookup(self@, v) == Some(*t),
            r is None ==> lookup(self@, v) is None,
    {
        let i = v.0 as usize;
        if i < self.binds.len() {
            match &self.binds[i] {
                Some(t) => Some(t),
                None => None,
            }
        } else {
            None
        }
    }

    /// Binds `v` to `t`, replacing an earlier binding of `v`; a variable
    /// may only be bound to itself or a smaller variable.
    pub fn insert(&mut self, v: Var, t: Term)
        requires
            t matches Term::Var(y, _) ==> y.0 <= v.0,
        ensures
            final(self)@ == bind(old(self)@, v, t),
    {
        proof {
            use_type_invariant(&*self);
        }
        let ghost m = self.binds@;
        let mut binds = self.copy().binds;
        let i = v.0 as usize;
        if i < binds.len() {
            binds.set(i, Some(t));
        } else {
            while binds.len() < i
                invariant
                    m.len() <= binds.len() <= i,
                    i == v.0,
                    binds@ == m + Seq::new((binds.len() - m.len()) as nat, |j: int| None::<Term>),
                decreases i - binds.len(),
            {
                binds.push(None);
                assert(binds@ =~= m + Seq::new((binds.len() - m.len()) as nat, |j: int| None::<Term>));
            }
            binds.push(Some(t));
        }
        proof {
            let m2 = bind(m, v, t);
            assert(binds@ == m2);
            assert forall|z: Var|
                (#[trigger] lookup(m2, z) is Some && lookup(m2, z)->Some_0 is Var) implies lookup(
                m2,
                z,
            )->Some_0->Var_0.0 <= z.0 by {
                if (v.0 as int) >= m.len() && z != v && (z.0 as int) < m2.len() && (z.0 as int) >= m.len() {
                    assert(m2[z.0 as int] == None::<Term>);
                }
                if z != v && (z.0 as int) < m.len() {
                    assert(lookup(m2, z) == lookup(m, z));
                }
            }
        }
        *self = Subst { binds };
    }

    /// Every variable with a binding, with it, by increasing variable.
    pub fn bindings(&self) -> (r: Vec<(Var, Term)>)
        ensures
            forall|k: int|
                0 <= k < r.len() ==> lookup(self@, #[trigger] r@[k].0) == Some(r@[k].1),
            forall|v: Var|
                lookup(self@, v) is Some ==> exists|k: int| 0 <= k < r.len() && #[trigger] r@[k].0 == v,
            forall|k: int| 0 <= k < r.len() - 1 ==> (#[trigger] r@[k].0).0 < r@[k + 1].0.0,
    {
        let mut r: Vec<(Var, Term)> = Vec::new();
        let mut i: usize = 0;
        while i < self.binds.len() && i <= u32::MAX as usize
            invariant
                0 <= i <= self.binds.len(),
                i <= u32::MAX + 1,
                forall|k: int|
                    0 <= k < r.len() ==> lookup(self@, #[trigger] r@[k].0) == Some(r@[k].1),
                forall|k: int| 0 <= k < r.len() ==> (#[trigger] r@[k].0).0 < i,
                forall|k: int| 0 <= k < r.len() - 1 ==> (#[trigger] r@[k].0).0 < r@[k + 1].0.0,
                forall|v: Var|
                    v.0 < i && lookup(self@, v) is Some ==> exists|k: int|
                        0 <= k < r.len() && #[trigger] r@[k].0 == v,
            decreases self.binds.len() - i,
        {
            let ghost before = r@;
            if let Some(t) = &self.binds[i] {
                r.push((Var(i as u32), t.clone()));
                assert(r@[r.len() - 1].0 == Var(i as u32));
            }
            proof {
                assert forall|v: Var|
                    v.0 < i + 1 && lookup(self@, v) is Some implies exists|k: int|
                        0 <= k < r.len() && #[trigger] r@[k].0 == v by {
                    if v.0 == i {
                        assert(self.binds@[i as int] is Some);
                        assert(r@[r.len() - 1].0 == v);
                    } else {
                        let k = choose|k: int| 0 <= k < before.len() && #[trigger] before[k].0 == v;
                        assert(r@[k] == before[k]);
                    }
                }
            }
            i = i + 1;
        }
        r
    }

    /// Resolves `t`: see [`walk`]. The result is not bound to anything
    /// but itself.
    pub fn walk<'a>(&'a self, t: &'a Term) -> (r: &'a Term)
        ensures
            *r == walk(*t, self@),
            settled(self@, *r),
    {
        proof {
            use_type_invariant(self);
            lemma_walk_settled(*t, self@);
            assert(descending(self@));
        }
        let mut cur: &Term = t;
        loop
            invariant
                walk(*cur, self@) == walk(*t, self@),
                settled(self@, walk(*t, self@)),
                descending(self@),
            decreases var_rank(*cur),
        {
            match cur {
                Term::Var(x, _) => {
                    match self.get(*x) {
                        Some(q) => {
                            match q {
                                Term::Var(y, _) => {
                                    if y.0 == x.0 {
                                        return q;
                                    } else if y.0 < x.0 {
                                        cur = q;
                                    } else {
                                        return cur;
                                    }
                                },
                                _ => {
                                    return q;
                                },
                            }
                        },
                        None => {
                            return cur;
                        },
                    }
                },
                _ => {
                    return cur;
                },
            }
        }
    }

    fn deep_walk_n(&self, t: &Term, n: u64) -> (r: Term)
        ensures
            r == deep_walk_n(*t, self@, n as nat),
        decreases n,
    {
        let w = self.walk(t);
        match w {
            Term::Cons(h, tl) => {
                if n == 0 {
                    w.clone()
                } else {
                    Term::Cons(
                        Box::new(self.deep_walk_n(&**h, n - 1)),
                        Box::new(self.deep_walk_n(&**tl, n - 1)),
                    )
                }
            },
            _ => w.clone(),
        }
    }

    /// Resolves `t` and, inside pairs, everything it holds.
    pub fn deep_walk(&self, t: &Term) -> (r: Term)
        ensures
            r == deep_walk(*t, self@),
    {
        self.deep_walk_n(t, DEPTH)
    }
}

} // verus!
