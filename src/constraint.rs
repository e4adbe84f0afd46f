//! The disequality store: constraints as lists of bindings that must not
//! all hold at once, re-checked after each binding and kept minimal.
use vstd::prelude::*;
use crate::term::{Term, TermType, Var};
use crate::subst::Subst;
use crate::unify::{Unify, Trail, unify};
use crate::set::{relation, relation_of, Relation};

verus! {

/// A constraint: the pairs `(v, t)` such that `v ≡ t` for all of them at
/// once is forbidden.
pub type Constraint = Vec<(Var, Term)>;

pub open spec fn store_view(cs: Seq<Vec<(Var, Term)>>) -> Seq<Seq<(Var, Term)>> {
    cs.map_values(|c: Vec<(Var, Term)>| c@)
}

/// Unifies each variable with its term, in order, from `u`.
pub open spec fn unify_pairs(p: Seq<(Var, Term)>, u: Trail) -> Option<Trail>
    decreases p.len(),
{
    if p.len() == 0 {
        Some(u)
    } else {
        match unify_pairs(p.drop_last(), u) {
            Some(u2) => unify(Term::Var(p.last().0, TermType::Any), p.last().1, u2),
            None => None,
        }
    }
}

/// What becomes of a constraint under substitution `m`: `None` when it is
/// violated (all its pairs already hold), `Some(None)` when it is
/// discharged (some pair can never hold), and `Some(Some(c))` when it stays
/// live, `c` being the bindings that would still have to be added.
pub open spec fn recheck_one(m: Seq<Option<Term>>, c: Seq<(Var, Term)>) -> Option<
    Option<Seq<(Var, Term)>>,
> {
    match unify_pairs(c, (m, Seq::empty())) {
        None => Some(None),
        Some(u) => if u.1.len() == 0 {
            None
        } else {
            Some(Some(u.1))
        },
    }
}

/// The store after a binding: `None` when some constraint is violated,
/// otherwise the live constraints in their new form, in order.
pub open spec fn recheck(m: Seq<Option<Term>>, cs: Seq<Seq<(Var, Term)>>) -> Option<
    Seq<Seq<(Var, Term)>>,
>
    decreases cs.len(),
{
    if cs.len() == 0 {
        Some(Seq::empty())
    } else {
        match recheck(m, cs.drop_last()) {
            None => None,
            Some(kept) => match recheck_one(m, cs.last()) {
                None => None,
                Some(None) => Some(kept),
                Some(Some(c)) => Some(kept.push(c)),
            },
        }
    }
}

proof fn lemma_recheck_stays_violated(m: Seq<Option<Term>>, cs: Seq<Seq<(Var, Term)>>, k: int)
    requires
        0 <= k <= cs.len(),
        recheck(m, cs.subrange(0, k)) is None,
    ensures
        recheck(m, cs) is None,
    decreases cs.len() - k,
{
    if k < cs.len() {
        let next = cs.subrange(0, k + 1);
        assert(next.drop_last() =~= cs.subrange(0, k));
        lemma_recheck_stays_violated(m, cs, k + 1);
    } else {
        assert(cs.subrange(0, k) =~= cs);
    }
}

/// Unifies the pairs of `c`, in order, against a copy of `map`.
pub fn unify_constraint(map: &Subst, c: &Vec<(Var, Term)>) -> (r: Option<Unify>)
    ensures
        r matches Some(u) ==> unify_pairs(c@, (map@, Seq::empty())) == Some(u@),
        r is None ==> unify_pairs(c@, (map@, Seq::empty())) is None,
{
    let mut u = Unify::new(map.copy());
    let mut i: usize = 0;
    while i < c.len()
        invariant
            0 <= i <= c.len(),
            unify_pairs(c@.subrange(0, i as int), (map@, Seq::empty())) == Some(u@),
        decreases c.len() - i,
    {
        let ghost before = u@;
        assert(c@.subrange(0, i + 1).drop_last() =~= c@.subrange(0, i as int));
        let ok = u.unify(&Term::Var(c[i].0, TermType::Any), &c[i].1);
        if !ok {
            proof {
                lemma_pairs_stay_failed(c@, (map@, Seq::empty()), i + 1);
            }
            return None;
        }
        i = i + 1;
    }
    assert(c@.subrange(0, c.len() as int) =~= c@);
    Some(u)
}

proof fn lemma_pairs_stay_failed(p: Seq<(Var, Term)>, u: Trail, k: int)
    requires
        0 <= k <= p.len(),
        unify_pairs(p.subrange(0, k), u) is None,
    ensures
        unify_pairs(p, u) is None,
    decreases p.len() - k,
{
    if k < p.len() {
        assert(p.subrange(0, k + 1).drop_last() =~= p.subrange(0, k));
        lemma_pairs_stay_failed(p, u, k + 1);
    } else {
        assert(p.subrange(0, k) =~= p);
    }
}

/// Re-checks every constraint against `map` after a binding: see
/// [`recheck`].
pub fn verify(map: &Subst, constraints: &Vec<Constraint>) -> (r: Option<Vec<Constraint>>)
    ensures
        r matches Some(kept) ==> recheck(map@, store_view(constraints@)) == Some(
            store_view(kept@),
        ),
        r is None ==> recheck(map@, store_view(constraints@)) is None,
{
    let ghost cs = store_view(constraints@);
    let mut kept: Vec<Constraint> = Vec::new();
    let mut i: usize = 0;
    while i < constraints.len()
        invariant
            0 <= i <= constraints.len(),
            cs == store_view(constraints@),
            recheck(map@, cs.subrange(0, i as int)) == Some(store_view(kept@)),
        decreases constraints.len() - i,
    {
        assert(cs.subrange(0, i + 1).drop_last() =~= cs.subrange(0, i as int));
        assert(cs.subrange(0, i + 1).last() == constraints@[i as int]@);
        match unify_constraint(map, &constraints[i]) {
            Some(u) => {
                if u.new.len() == 0 {
                    proof {
                        lemma_recheck_stays_violated(map@, cs, i + 1);
                    }
                    return None;
                }
                let ghost before = kept@;
                kept.push(u.new);
                assert(store_view(kept@) =~= store_view(before).push(u.new@));
            },
            None => {},
        }
        i = i + 1;
    }
    assert(cs.subrange(0, constraints.len() as int) =~= cs);
    Some(kept)
}

/// Inserts `c` into a minimal store, walking the store in order: each
/// constraint that `c` is a strict subset of is removed; at the first
/// constraint that is a subset of `c` or equal to it, `c` is dropped and that
/// constraint and all after it stay; if there is none, `c` is appended.
pub open spec fn min_add(ms: Seq<Seq<(Var, Term)>>, c: Seq<(Var, Term)>) -> Seq<
    Seq<(Var, Term)>,
>
    decreases ms.len(),
{
    if ms.len() == 0 {
        seq![c]
    } else {
        match relation_of(c, ms[0]) {
            Relation::Subset => min_add(ms.drop_first(), c),
            Relation::Equal | Relation::Superset => ms,
            _ => seq![ms[0]] + min_add(ms.drop_first(), c),
        }
    }
}

/// A copy of a constraint.
pub fn copy_constraint(c: &Constraint) -> (r: Constraint)
    ensures
        r@ == c@,
{
    let mut r: Constraint = Vec::new();
    let mut i: usize = 0;
    while i < c.len()
        invariant
            0 <= i <= c.len(),
            r@ == c@.subrange(0, i as int),
        decreases c.len() - i,
    {
        r.push((c[i].0, c[i].1.clone()));
        i = i + 1;
        assert(r@ =~= c@.subrange(0, i as int));
    }
    assert(c@.subrange(0, c.len() as int) =~= c@);
    r
}

/// See [`min_add`].
pub fn mininal_contraints_add(minimal_constraints: &mut Vec<Constraint>, new_constraint: Constraint)
    requires
        new_constraint.len() > 0,
    ensures
        store_view(final(minimal_constraints)@) == min_add(
            store_view(old(minimal_constraints)@),
            new_constraint@,
        ),
{
    let ghost ms = store_view(minimal_constraints@);
    let ghost c = new_constraint@;
    let mut out: Vec<Constraint> = Vec::new();
    let mut i: usize = 0;
    assert(ms.subrange(0, ms.len() as int) =~= ms);
    assert(store_view(out@) =~= Seq::<Seq<(Var, Term)>>::empty());
    while i < minimal_constraints.len()
        invariant
            0 <= i <= minimal_constraints.len(),
            ms == store_view(minimal_constraints@),
            ms == store_view(old(minimal_constraints)@),
            ms.len() == minimal_constraints.len(),
            c == new_constraint@,
            min_add(ms, c) == store_view(out@) + min_add(ms.subrange(i as int, ms.len() as int), c),
        decreases minimal_constraints.len() - i,
    {
        let ghost tail = ms.subrange(i as int, ms.len() as int);
        assert(tail[0] == minimal_constraints@[i as int]@);
        assert(tail.drop_first() =~= ms.subrange(i + 1, ms.len() as int));
        match relation(&new_constraint, &minimal_constraints[i]) {
            Relation::Subset => {},
            Relation::Equal | Relation::Superset => {
                let ghost before = out@;
                let ghost k = i as int;
                assert(min_add(tail, c) == tail);
                assert(ms.subrange(k, k) =~= Seq::<Seq<(Var, Term)>>::empty());
                assert(store_view(before) + ms.subrange(k, k) =~= store_view(before));
                while i < minimal_constraints.len()
                    invariant
                        0 <= k <= i <= minimal_constraints.len(),
                        min_add(ms, c) == store_view(before) + tail,
                        c == new_constraint@,
                        ms == store_view(old(minimal_constraints)@),
                        tail == ms.subrange(k, ms.len() as int),
                        ms == store_view(minimal_constraints@),
                        ms.len() == minimal_constraints.len(),
                        store_view(out@) == store_view(before) + ms.subrange(k, i as int),
                    decreases minimal_constraints.len() - i,
                {
                    let ghost o = out@;
                    out.push(copy_constraint(&minimal_constraints[i]));
                    i = i + 1;
                    assert(store_view(out@) =~= store_view(o).push(ms[i - 1]));
                    assert(ms.subrange(k, i as int) =~= ms.subrange(k, i - 1).push(ms[i - 1]));
                }
                assert(ms.subrange(k, ms.len() as int) =~= tail);
                *minimal_constraints = out;
                return;
            },
            _ => {
                let ghost before = out@;
                out.push(copy_constraint(&minimal_constraints[i]));
                assert(store_view(out@) =~= store_view(before) + seq![tail[0]]);
            },
        }
        i = i + 1;
    }
    let ghost before = out@;
    out.push(new_constraint);
    assert(ms.subrange(ms.len() as int, ms.len() as int) =~= Seq::<Seq<(Var, Term)>>::empty());
    assert(store_view(out@) =~= store_view(before) + seq![c]);
    *minimal_constraints = out;
}

} // verus!
