//! Answers seen from the query: the values of the query variables, and the
//! residual constraints that speak of them only.
use vstd::prelude::*;
use crate::term::{Term, TermType, Var};
use crate::subst::{Subst, deep_walk};
use crate::state::State;
use crate::set::{member, contains};
use crate::constraint::{Constraint, store_view, min_add, mininal_contraints_add};
use crate::order::{sort_pairs, sort_constraints, pairs_sorted, constraints_sorted};
use crate::query::StateN;

verus! {

broadcast use vstd::seq_lib::group_to_multiset_ensures;

/// The variables occurring in `t`, left to right.
pub open spec fn vars_in(t: Term) -> Seq<Var>
    decreases t,
{
    match t {
        Term::Var(v, _) => seq![v],
        Term::Cons(h, tl) => vars_in(*h) + vars_in(*tl),
        _ => Seq::empty(),
    }
}

/// Query variable `i`, untyped.
pub open spec fn query_var(i: int) -> Term {
    Term::Var(Var(i as u32), TermType::Any)
}

/// `v` occurs in the value of one of the first `n` query variables.
pub open spec fn reachable(m: Seq<Option<Term>>, n: nat, v: Var) -> bool {
    exists|i: int| 0 <= i < n && #[trigger] vars_in(deep_walk(query_var(i), m)).contains(v)
}

/// A resolved binding that speaks of reachable variables only.
pub open spec fn visible(m: Seq<Option<Term>>, n: nat, p: (Var, Term)) -> bool {
    reachable(m, n, p.0) && forall|j: int|
        0 <= j < vars_in(p.1).len() ==> reachable(m, n, #[trigger] vars_in(p.1)[j])
}

/// The bindings of `c` with their terms resolved, keeping the visible ones
/// once each.
pub open spec fn project(m: Seq<Option<Term>>, n: nat, c: Seq<(Var, Term)>) -> Seq<(Var, Term)>
    decreases c.len(),
{
    if c.len() == 0 {
        Seq::empty()
    } else {
        let rest = project(m, n, c.drop_last());
        let p = (c.last().0, deep_walk(c.last().1, m));
        if visible(m, n, p) && !member(rest, p) {
            rest.push(p)
        } else {
            rest
        }
    }
}

/// The projections of a store, the empty ones dropped.
pub open spec fn projected(m: Seq<Option<Term>>, n: nat, cs: Seq<Seq<(Var, Term)>>) -> Seq<
    Seq<(Var, Term)>,
>
    decreases cs.len(),
{
    if cs.len() == 0 {
        Seq::empty()
    } else {
        let rest = projected(m, n, cs.drop_last());
        let p = project(m, n, cs.last());
        if p.len() > 0 {
            rest.push(p)
        } else {
            rest
        }
    }
}

/// The store built by inserting each constraint in turn into an empty
/// minimal store.
pub open spec fn minimize(cs: Seq<Seq<(Var, Term)>>) -> Seq<Seq<(Var, Term)>>
    decreases cs.len(),
{
    if cs.len() == 0 {
        Seq::empty()
    } else {
        min_add(minimize(cs.drop_last()), cs.last())
    }
}

/// The minimal store of `s` seen from its first `n` query variables.
pub open spec fn purified(s: State, n: nat) -> Seq<Seq<(Var, Term)>> {
    minimize(projected(s.map@, n, store_view(s.constraints@)))
}

/// `a` and `b` hold the same constraints, each taken as a multiset of
/// bindings, in any order.
pub open spec fn same_constraints(a: Seq<Seq<(Var, Term)>>, b: Seq<Seq<(Var, Term)>>) -> bool {
    &&& forall|i: int| 0 <= i < a.len() ==> has_match(#[trigger] a[i], b)
    &&& forall|j: int| 0 <= j < b.len() ==> has_match(#[trigger] b[j], a)
}

/// Some constraint of `b` holds the same bindings as `c`.
pub open spec fn has_match(c: Seq<(Var, Term)>, b: Seq<Seq<(Var, Term)>>) -> bool {
    exists|j: int| 0 <= j < b.len() && c.to_multiset() == (#[trigger] b[j]).to_multiset()
}

/// The value of each of the first `n` query variables.
pub fn reify(state: &State, n: usize) -> (r: Vec<Term>)
    requires
        n <= u32::MAX + 1,
    ensures
        r@.len() == n,
        forall|i: int| 0 <= i < n ==> #[trigger] r@[i] == deep_walk(query_var(i), state.map@),
{
    let mut r: Vec<Term> = Vec::new();
    let mut i: usize = 0;
    while i < n
        invariant
            0 <= i <= n,
            n <= u32::MAX + 1,
            r@.len() == i,
            forall|j: int| 0 <= j < i ==> #[trigger] r@[j] == deep_walk(query_var(j), state.map@),
        decreases n - i,
    {
        r.push(state.resolve(Var(i as u32)));
        i = i + 1;
    }
    r
}

fn collect_vars(t: &Term, out: &mut Vec<Var>)
    ensures
        final(out)@ == old(out)@ + vars_in(*t),
    decreases t,
{
    match t {
        Term::Var(v, _) => {
            out.push(*v);
        },
        Term::Cons(h, tl) => {
            collect_vars(&**h, out);
            collect_vars(&**tl, out);
            assert(final(out)@ =~= old(out)@ + vars_in(*t));
        },
        _ => {
            assert(final(out)@ =~= old(out)@ + vars_in(*t));
        },
    }
}

fn has_var(s: &Vec<Var>, v: Var) -> (r: bool)
    ensures
        r == s@.contains(v),
{
    let mut i: usize = 0;
    while i < s.len()
        invariant
            0 <= i <= s.len(),
            forall|j: int| 0 <= j < i ==> s@[j] != v,
        decreases s.len() - i,
    {
        if s[i].0 == v.0 {
            return true;
        }
        i = i + 1;
    }
    false
}

/// The variables reachable from the first `n` query variables.
fn reachable_vars(state: &State, n: usize) -> (r: Vec<Var>)
    requires
        n <= u32::MAX + 1,
    ensures
        forall|v: Var| r@.contains(v) <==> reachable(state.map@, n as nat, v),
{
    let mut r: Vec<Var> = Vec::new();
    let mut i: usize = 0;
    while i < n
        invariant
            0 <= i <= n,
            n <= u32::MAX + 1,
            forall|v: Var|
                r@.contains(v) <==> exists|k: int|
                    0 <= k < i && #[trigger] vars_in(deep_walk(query_var(k), state.map@)).contains(v),
        decreases n - i,
    {
        let t = state.resolve(Var(i as u32));
        let ghost before = r@;
        collect_vars(&t, &mut r);
        assert forall|v: Var|
            r@.contains(v) <==> exists|k: int|
                0 <= k < i + 1 && #[trigger] vars_in(deep_walk(query_var(k), state.map@)).contains(
                    v,
                ) by {
            lemma_contains_concat(before, vars_in(t), v);
            if vars_in(t).contains(v) {
                assert(vars_in(deep_walk(query_var(i as int), state.map@)).contains(v));
            }
            if exists|k: int|
                0 <= k < i + 1 && #[trigger] vars_in(deep_walk(query_var(k), state.map@)).contains(
                    v,
                ) {
                let k = choose|k: int|
                    0 <= k < i + 1 && #[trigger] vars_in(
                        deep_walk(query_var(k), state.map@),
                    ).contains(v);
                if k == i {
                    assert(vars_in(t).contains(v));
                }
            }
        }
        i = i + 1;
    }
    r
}

proof fn lemma_contains_concat(a: Seq<Var>, b: Seq<Var>, v: Var)
    ensures
        (a + b).contains(v) <==> a.contains(v) || b.contains(v),
{
    if (a + b).contains(v) {
        let j = choose|j: int| 0 <= j < (a + b).len() && (a + b)[j] == v;
        if j < a.len() {
            assert(a[j] == v);
        } else {
            assert(b[j - a.len()] == v);
        }
    }
    if a.contains(v) {
        let j = choose|j: int| 0 <= j < a.len() && a[j] == v;
        assert((a + b)[j] == v);
    }
    if b.contains(v) {
        let j = choose|j: int| 0 <= j < b.len() && b[j] == v;
        assert((a + b)[a.len() + j] == v);
    }
}

proof fn lemma_projected_nonempty(m: Seq<Option<Term>>, n: nat, cs: Seq<Seq<(Var, Term)>>)
    ensures
        forall|j: int|
            0 <= j < projected(m, n, cs).len() ==> (#[trigger] projected(m, n, cs)[j]).len() > 0,
    decreases cs.len(),
{
    if cs.len() > 0 {
        lemma_projected_nonempty(m, n, cs.drop_last());
        let rest = projected(m, n, cs.drop_last());
        let p = project(m, n, cs.last());
        assert forall|j: int|
            0 <= j < projected(m, n, cs).len() implies (#[trigger] projected(m, n, cs)[j]).len()
            > 0 by {
            if p.len() > 0 && j == rest.len() {
            } else {
                assert(projected(m, n, cs)[j] == rest[j]);
            }
        }
    }
}

fn all_reachable(vars: &Vec<Var>, reach: &Vec<Var>) -> (r: bool)
    ensures
        r == forall|j: int| 0 <= j < vars@.len() ==> reach@.contains(#[trigger] vars@[j]),
{
    let mut i: usize = 0;
    while i < vars.len()
        invariant
            0 <= i <= vars.len(),
            forall|j: int| 0 <= j < i ==> reach@.contains(#[trigger] vars@[j]),
        decreases vars.len() - i,
    {
        if !has_var(reach, vars[i]) {
            return false;
        }
        i = i + 1;
    }
    true
}

/// See [`project`].
fn project_constraint(state: &State, n: usize, reach: &Vec<Var>, c: &Constraint) -> (r: Constraint)
    requires
        forall|v: Var| reach@.contains(v) <==> reachable(state.map@, n as nat, v),
    ensures
        r@ == project(state.map@, n as nat, c@),
{
    let mut r: Constraint = Vec::new();
    let mut i: usize = 0;
    while i < c.len()
        invariant
            0 <= i <= c.len(),
            forall|v: Var| reach@.contains(v) <==> reachable(state.map@, n as nat, v),
            r@ == project(state.map@, n as nat, c@.subrange(0, i as int)),
        decreases c.len() - i,
    {
        let ghost pre = c@.subrange(0, i + 1);
        assert(pre.drop_last() =~= c@.subrange(0, i as int));
        let v = c[i].0;
        let t = state.map.deep_walk(&c[i].1);
        let mut vs: Vec<Var> = Vec::new();
        collect_vars(&t, &mut vs);
        assert(vs@ =~= vars_in(t));
        let p = (v, t);
        assert(c@.subrange(0, i + 1).last() == c@[i as int]);
        let v_ok = has_var(reach, v);
        let vs_ok = all_reachable(&vs, reach);
        proof {
            if vs_ok {
                assert forall|j: int| 0 <= j < vars_in(p.1).len() implies reachable(
                    state.map@,
                    n as nat,
                    #[trigger] vars_in(p.1)[j],
                ) by {
                    assert(reach@.contains(vs@[j]));
                }
            } else {
                let j = choose|j: int| 0 <= j < vs@.len() && !reach@.contains(vs@[j]);
                assert(!reachable(state.map@, n as nat, vars_in(p.1)[j]));
            }
        }
        assert(v_ok == reachable(state.map@, n as nat, p.0));
        if v_ok && vs_ok && !contains(&r, &p) {
            r.push(p);
        }
        i = i + 1;
    }
    assert(c@.subrange(0, c.len() as int) =~= c@);
    r
}

/// The residual constraints of `state` seen from its first `n` query
/// variables: each constraint's terms resolved, the bindings that speak of
/// other variables dropped, empty constraints dropped, and the rest made
/// minimal. See [`purified`].
pub fn minimal_store(state: &State, n: usize) -> (r: Vec<Constraint>)
    requires
        n <= u32::MAX + 1,
    ensures
        store_view(r@) == purified(*state, n as nat),
        minimize(store_view(r@)) == store_view(r@),
        crate::laws::incomparable(store_view(r@)),
        forall|k: int| 0 <= k < r@.len() ==> (#[trigger] r@[k])@.len() > 0,
{
    let reach = reachable_vars(state, n);
    let ghost cs = store_view(state.constraints@);
    let ghost m = state.map@;
    let mut projs: Vec<Constraint> = Vec::new();
    let mut i: usize = 0;
    while i < state.constraints.len()
        invariant
            0 <= i <= state.constraints.len(),
            cs == store_view(state.constraints@),
            cs.len() == state.constraints.len(),
            m == state.map@,
            forall|v: Var| reach@.contains(v) <==> reachable(state.map@, n as nat, v),
            store_view(projs@) == projected(m, n as nat, cs.subrange(0, i as int)),
        decreases state.constraints.len() - i,
    {
        let ghost pre = cs.subrange(0, i + 1);
        assert(pre.drop_last() =~= cs.subrange(0, i as int));
        assert(pre.last() == state.constraints@[i as int]@);
        let p = project_constraint(state, n, &reach, &state.constraints[i]);
        if p.len() > 0 {
            let ghost before = projs@;
            projs.push(p);
            assert(store_view(projs@) =~= store_view(before).push(p@));
        }
        i = i + 1;
    }
    assert(cs.subrange(0, cs.len() as int) =~= cs);
    let ghost ps = store_view(projs@);
    proof {
        lemma_projected_nonempty(m, n as nat, cs);
    }
    let mut minimal: Vec<Constraint> = Vec::new();
    assert(store_view(minimal@) =~= minimize(ps.subrange(0, 0)));
    let mut projs = projs;
    let mut rev: Vec<Constraint> = Vec::new();
    let ghost total = projs.len();
    while projs.len() > 0
        invariant
            projs.len() + rev.len() == total,
            ps.len() == total,
            forall|j: int| 0 <= j < projs.len() ==> ps[j] == (#[trigger] projs@[j])@,
            forall|j: int| 0 <= j < rev.len() ==> ps[total - 1 - j] == (#[trigger] rev@[j])@,
            forall|j: int| 0 <= j < total ==> (#[trigger] ps[j]).len() > 0,
        decreases projs.len(),
    {
        let c = projs.pop().unwrap();
        rev.push(c);
    }
    while rev.len() > 0
        invariant
            rev.len() <= total,
            ps.len() == total,
            forall|j: int| 0 <= j < rev.len() ==> ps[total - 1 - j] == (#[trigger] rev@[j])@,
            forall|j: int| 0 <= j < total ==> (#[trigger] ps[j]).len() > 0,
            store_view(minimal@) == minimize(ps.subrange(0, total - rev.len())),
        decreases rev.len(),
    {
        let ghost k = total - rev.len();
        let c = rev.pop().unwrap();
        assert(ps.subrange(0, k + 1).drop_last() =~= ps.subrange(0, k));
        mininal_contraints_add(&mut minimal, c);
    }
    assert(ps.subrange(0, total as int) =~= ps);
    proof {
        crate::laws::minimize_is_stable(projected(m, n as nat, cs));
        crate::laws::minimize_keeps_nonempty(projected(m, n as nat, cs));
        assert forall|k: int| 0 <= k < minimal@.len() implies (#[trigger] minimal@[k])@.len() > 0 by {
            assert(store_view(minimal@)[k] == minimal@[k]@);
        }
    }
    minimal
}

/// The residual constraints of `state` in canonical form: those of
/// [`minimal_store`], each with its bindings sorted, sorted among
/// themselves.
pub fn purify(state: &State, n: usize) -> (r: Vec<Constraint>)
    requires
        n <= u32::MAX + 1,
    ensures
        store_view(r@).len() == purified(*state, n as nat).len(),
        constraints_sorted(store_view(r@)),
        forall|i: int| 0 <= i < r@.len() ==> pairs_sorted(#[trigger] r@[i]@),
        same_constraints(store_view(r@), purified(*state, n as nat)),
        minimize(purified(*state, n as nat)) == purified(*state, n as nat),
        crate::laws::incomparable(purified(*state, n as nat)),
        forall|k: int| 0 <= k < r@.len() ==> (#[trigger] r@[k])@.len() > 0,
{
    let minimal = minimal_store(state, n);
    let ghost ms = store_view(minimal@);
    assert forall|j: int| 0 <= j < ms.len() implies (#[trigger] ms[j]).len() > 0 by {
        assert(ms[j] == minimal@[j]@);
    }
    let mut minimal = minimal;
    let mut rev: Vec<Constraint> = Vec::new();
    let ghost total = minimal.len();
    while minimal.len() > 0
        invariant
            minimal.len() + rev.len() == total,
            ms.len() == total,
            ms == purified(*state, n as nat),
            forall|j: int| 0 <= j < ms.len() ==> (#[trigger] ms[j]).len() > 0,
            forall|j: int| 0 <= j < minimal.len() ==> ms[j] == (#[trigger] minimal@[j])@,
            forall|j: int| 0 <= j < rev.len() ==> ms[total - 1 - j] == (#[trigger] rev@[j])@,
        decreases minimal.len(),
    {
        let c = minimal.pop().unwrap();
        rev.push(c);
    }
    let mut sorted: Vec<Constraint> = Vec::new();
    while rev.len() > 0
        invariant
            rev.len() <= total,
            ms.len() == total,
            sorted.len() == total - rev.len(),
            forall|j: int| 0 <= j < rev.len() ==> ms[total - 1 - j] == (#[trigger] rev@[j])@,
            ms == purified(*state, n as nat),
            forall|j: int| 0 <= j < ms.len() ==> (#[trigger] ms[j]).len() > 0,
            forall|j: int|
                0 <= j < sorted.len() ==> pairs_sorted(#[trigger] sorted@[j]@) && sorted@[j]@.to_multiset()
                    == ms[j].to_multiset(),
        decreases rev.len(),
    {
        let c = rev.pop().unwrap();
        sorted.push(sort_pairs(c));
    }
    let ghost sv = store_view(sorted@);
    assert(sv.len() == sorted@.len());
    let r = sort_constraints(sorted);
    let ghost rv = store_view(r@);
    proof {
        assert(rv.to_multiset().len() == rv.len());
        assert(sv.to_multiset().len() == sv.len());
        assert forall|i: int| 0 <= i < rv.len() implies has_match(#[trigger] rv[i], ms) by {
            assert(rv[i] == r@[i]@);
            assert(rv.contains(rv[i]));
            assert(rv.to_multiset().contains(rv[i]));
            assert(sv.to_multiset().contains(rv[i]));
            let j = choose|j: int| 0 <= j < sv.len() && sv[j] == rv[i];
            assert(sv[j] == sorted@[j]@);
            assert(sorted@[j]@.to_multiset() == ms[j].to_multiset());
            assert(0 <= j < ms.len() && rv[i].to_multiset() == ms[j].to_multiset());
        }
        assert forall|i: int| 0 <= i < r@.len() implies pairs_sorted(#[trigger] r@[i]@) by {
            assert(rv[i] == r@[i]@);
            assert(rv.contains(rv[i]));
            assert(rv.to_multiset().contains(rv[i]));
            assert(sv.to_multiset().contains(rv[i]));
            let j = choose|j: int| 0 <= j < sv.len() && sv[j] == rv[i];
            assert(sv[j] == sorted@[j]@);
        }
        assert forall|j: int| 0 <= j < ms.len() implies has_match(#[trigger] ms[j], rv) by {
            assert(sv[j] == sorted@[j]@);
            assert(sv.contains(sv[j]));
            assert(sv.to_multiset().contains(sv[j]));
            assert(rv.to_multiset().contains(sv[j]));
            let i = choose|i: int| 0 <= i < rv.len() && rv[i] == sv[j];
            assert(rv[i] == r@[i]@);
            assert(sorted@[j]@.to_multiset() == ms[j].to_multiset());
            assert(0 <= i < rv.len() && rv[i].to_multiset() == ms[j].to_multiset());
        }
        assert(ms == purified(*state, n as nat));
        assert forall|k: int| 0 <= k < r@.len() implies (#[trigger] r@[k])@.len() > 0 by {
            assert(rv[k] == r@[k]@);
            assert(has_match(rv[k], ms));
            let j = choose|j: int| 0 <= j < ms.len() && rv[k].to_multiset() == (#[trigger] ms[j]).to_multiset();
            assert(rv[k].to_multiset().len() == rv[k].len());
            assert(ms[j].to_multiset().len() == ms[j].len());
        }
    }
    r
}

impl StateN {
    /// The values of the query variables.
    pub fn reify(&self) -> (r: Vec<Term>)
        requires
            self.n <= u32::MAX + 1,
        ensures
            r@.len() == self.n,
            forall|i: int|
                0 <= i < self.n ==> #[trigger] r@[i] == deep_walk(query_var(i), self.state.map@),
    {
        reify(&self.state, self.n)
    }

    /// The residual constraints: see [`purify`].
    pub fn purify(&self) -> (r: Vec<Constraint>)
        requires
            self.n <= u32::MAX + 1,
        ensures
            store_view(r@).len() == purified(self.state, self.n as nat).len(),
            constraints_sorted(store_view(r@)),
            forall|i: int| 0 <= i < r@.len() ==> pairs_sorted(#[trigger] r@[i]@),
            same_constraints(store_view(r@), purified(self.state, self.n as nat)),
    {
        purify(&self.state, self.n)
    }
}

} // verus!
