//! Laws of the engine, stated over the specifications of its parts and
//! proved.
use vstd::prelude::*;
use crate::term::{Term, TermType, Var, same};
use crate::subst::{lookup, bind, walk, var_rank, deep_walk, deep_walk_n, DEPTH, descending, settled};
use crate::unify::{unify, unify_n, decide, Step, Trail};
use crate::state::{Store, neq_result, eq_result};
use crate::set::{within, relation_of, Relation};
use crate::constraint::min_add;
use crate::project::{minimize, vars_in, query_var};
use crate::goal::{Binding, Goal, conj, disj, succeed_goal};
use crate::query::{QueryView, take_s, take_all_s, next_s};
use crate::search::{StV, EngV, Node, FreshInner, numbered, resolve_s, intern_s};

verus! {

/// A disequality never answers with a state in which its two sides are
/// already equal: the answer keeps the substitution, under which unifying
/// the two sides either fails or has to add bindings, and in the latter case
/// those bindings are added to the store as a constraint.
pub proof fn neq_answers_keep_sides_apart(a: Term, b: Term, s: Store, answer: Store)
    requires
        neq_result(a, b, s) == Some(answer),
    ensures
        answer.0 == s.0,
        unify(a, b, (answer.0, Seq::empty())) matches Some(u) ==> u.1.len() > 0
            && answer.1 == s.1.push(u.1),
{
}

/// The variables a fresh goal introduces are numbered from the counter on,
/// so none of them is a variable numbered before it.
pub proof fn fresh_vars_do_not_alias(counter: u32, k: nat, fresh: Seq<Var>, v: Var)
    requires
        fresh.len() == k,
        forall|i: int| 0 <= i < k ==> (#[trigger] fresh[i]).0 == counter + i,
        v.0 < counter,
    ensures
        !fresh.contains(v),
{
    if fresh.contains(v) {
        let i = choose|i: int| 0 <= i < fresh.len() && fresh[i] == v;
        assert(fresh[i].0 == counter + i);
    }
}

/// The empty conjunction is the goal that succeeds without change.
pub proof fn empty_conjunction_succeeds<B>()
    ensures
        conj(Seq::<Goal<B>>::empty()) == succeed_goal::<B>(),
{
}

/// A table of one row is the conjunction of that row: what
/// [`crate::goal::cond`] builds from `table` is what [`crate::goal::all`]
/// builds from its row.
pub proof fn single_row_table_is_conjunction<B>(table: Seq<Vec<Goal<B>>>)
    requires
        table.len() == 1,
    ensures
        disj(table.map_values(|row: Vec<Goal<B>>| conj(row@))) == conj(table[0]@),
{
    let rows = table.map_values(|row: Vec<Goal<B>>| conj(row@));
    assert(rows.len() == 1);
    assert(rows[0] == conj(table[0]@));
}

/// No constraint of the store is a subset of another.
pub open spec fn incomparable(cs: Seq<Seq<(Var, Term)>>) -> bool {
    forall|i: int, j: int|
        0 <= i < cs.len() && 0 <= j < cs.len() && i != j ==> !within(
            #[trigger] cs[i],
            #[trigger] cs[j],
        )
}

proof fn lemma_min_add_elements(ms: Seq<Seq<(Var, Term)>>, c: Seq<(Var, Term)>, k: int)
    requires
        0 <= k < min_add(ms, c).len(),
    ensures
        min_add(ms, c)[k] == c || ms.contains(min_add(ms, c)[k]),
    decreases ms.len(),
{
    if ms.len() > 0 {
        let rest = ms.drop_first();
        match relation_of(c, ms[0]) {
            Relation::Subset => {
                lemma_min_add_elements(rest, c, k);
                if rest.contains(min_add(ms, c)[k]) {
                    let j = choose|j: int| 0 <= j < rest.len() && rest[j] == min_add(ms, c)[k];
                    assert(ms[j + 1] == rest[j]);
                }
            },
            Relation::Equal | Relation::Superset => {
                assert(ms[k] == min_add(ms, c)[k]);
            },
            _ => {
                if k == 0 {
                    assert(ms[0] == min_add(ms, c)[k]);
                } else {
                    lemma_min_add_elements(rest, c, k - 1);
                    if rest.contains(min_add(rest, c)[k - 1]) {
                        let j = choose|j: int|
                            0 <= j < rest.len() && rest[j] == min_add(rest, c)[k - 1];
                        assert(ms[j + 1] == rest[j]);
                    }
                }
            },
        }
    }
}

proof fn lemma_min_add_incomparable(ms: Seq<Seq<(Var, Term)>>, c: Seq<(Var, Term)>)
    requires
        incomparable(ms),
    ensures
        incomparable(min_add(ms, c)),
    decreases ms.len(),
{
    if ms.len() > 0 {
        let rest = ms.drop_first();
        assert(incomparable(rest)) by {
            assert forall|i: int, j: int|
                0 <= i < rest.len() && 0 <= j < rest.len() && i != j implies !within(
                #[trigger] rest[i],
                #[trigger] rest[j],
            ) by {
                assert(rest[i] == ms[i + 1] && rest[j] == ms[j + 1]);
            }
        }
        lemma_min_add_incomparable(rest, c);
        match relation_of(c, ms[0]) {
            Relation::Subset => {},
            Relation::Equal | Relation::Superset => {},
            _ => {
                let tail = min_add(rest, c);
                let r = min_add(ms, c);
                assert(r == seq![ms[0]] + tail);
                assert forall|i: int, j: int|
                    0 <= i < r.len() && 0 <= j < r.len() && i != j implies !within(
                    #[trigger] r[i],
                    #[trigger] r[j],
                ) by {
                    if i > 0 && j > 0 {
                        assert(r[i] == tail[i - 1] && r[j] == tail[j - 1]);
                    } else if i == 0 {
                        assert(r[j] == tail[j - 1]);
                        lemma_min_add_elements(rest, c, j - 1);
                        if tail[j - 1] != c {
                            let k = choose|k: int| 0 <= k < rest.len() && rest[k] == tail[j - 1];
                            assert(ms[k + 1] == rest[k]);
                        }
                    } else {
                        assert(r[i] == tail[i - 1]);
                        lemma_min_add_elements(rest, c, i - 1);
                        if tail[i - 1] != c {
                            let k = choose|k: int| 0 <= k < rest.len() && rest[k] == tail[i - 1];
                            assert(ms[k + 1] == rest[k]);
                        }
                    }
                }
            },
        }
    }
}

proof fn lemma_minimize_incomparable(cs: Seq<Seq<(Var, Term)>>)
    ensures
        incomparable(minimize(cs)),
    decreases cs.len(),
{
    if cs.len() > 0 {
        lemma_minimize_incomparable(cs.drop_last());
        lemma_min_add_incomparable(minimize(cs.drop_last()), cs.last());
    }
}

proof fn lemma_min_add_appends(xs: Seq<Seq<(Var, Term)>>, c: Seq<(Var, Term)>)
    requires
        forall|k: int| 0 <= k < xs.len() ==> !within(c, #[trigger] xs[k]) && !within(xs[k], c),
    ensures
        min_add(xs, c) == xs.push(c),
    decreases xs.len(),
{
    if xs.len() > 0 {
        let rest = xs.drop_first();
        assert forall|k: int| 0 <= k < rest.len() implies !within(c, #[trigger] rest[k]) && !within(
            rest[k],
            c,
        ) by {
            assert(rest[k] == xs[k + 1]);
        }
        lemma_min_add_appends(rest, c);
        assert(!within(c, xs[0]) && !within(xs[0], c));
        assert(seq![xs[0]] + rest.push(c) =~= xs.push(c));
    }
}

proof fn lemma_minimize_of_incomparable(ms: Seq<Seq<(Var, Term)>>)
    requires
        incomparable(ms),
    ensures
        minimize(ms) == ms,
    decreases ms.len(),
{
    if ms.len() > 0 {
        let init = ms.drop_last();
        assert(incomparable(init)) by {
            assert forall|i: int, j: int|
                0 <= i < init.len() && 0 <= j < init.len() && i != j implies !within(
                #[trigger] init[i],
                #[trigger] init[j],
            ) by {
                assert(init[i] == ms[i] && init[j] == ms[j]);
            }
        }
        lemma_minimize_of_incomparable(init);
        let c = ms.last();
        assert forall|k: int| 0 <= k < init.len() implies !within(c, #[trigger] init[k]) && !within(
            init[k],
            c,
        ) by {
            assert(init[k] == ms[k]);
            assert(c == ms[ms.len() - 1]);
        }
        lemma_min_add_appends(init, c);
        assert(init.push(c) =~= ms);
    }
}

proof fn lemma_minimize_elements(cs: Seq<Seq<(Var, Term)>>, k: int)
    requires
        0 <= k < minimize(cs).len(),
    ensures
        cs.contains(minimize(cs)[k]),
    decreases cs.len(),
{
    if cs.len() > 0 {
        let init = cs.drop_last();
        lemma_min_add_elements(minimize(init), cs.last(), k);
        let x = minimize(cs)[k];
        if x == cs.last() {
            assert(cs[cs.len() - 1] == x);
        } else {
            let j = choose|j: int| 0 <= j < minimize(init).len() && minimize(init)[j] == x;
            lemma_minimize_elements(init, j);
            let i = choose|i: int| 0 <= i < init.len() && init[i] == x;
            assert(cs[i] == x);
        }
    }
}

/// Minimizing a store of non-empty constraints keeps only non-empty
/// constraints.
pub proof fn minimize_keeps_nonempty(cs: Seq<Seq<(Var, Term)>>)
    requires
        forall|j: int| 0 <= j < cs.len() ==> (#[trigger] cs[j]).len() > 0,
    ensures
        forall|k: int| 0 <= k < minimize(cs).len() ==> (#[trigger] minimize(cs)[k]).len() > 0,
{
    assert forall|k: int| 0 <= k < minimize(cs).len() implies (#[trigger] minimize(cs)[k]).len() > 0 by {
        lemma_minimize_elements(cs, k);
        let i = choose|i: int| 0 <= i < cs.len() && cs[i] == minimize(cs)[k];
    }
}

/// Minimizing a store twice gives what minimizing it once gives: the
/// result of minimization holds no constraint that is a subset of another,
/// and such a store is left as it is.
pub proof fn minimize_is_stable(cs: Seq<Seq<(Var, Term)>>)
    ensures
        incomparable(minimize(cs)),
        minimize(minimize(cs)) == minimize(cs),
{
    lemma_minimize_incomparable(cs);
    lemma_minimize_of_incomparable(minimize(cs));
}


/// `z` is bound to itself (with a type) in `m`.
pub open spec fn self_bound(m: Seq<Option<Term>>, z: Var) -> bool {
    lookup(m, z) matches Some(Term::Var(y, _)) && y == z
}

/// No type sentinel and no typed variable anywhere in `t`.
pub open spec fn pure(t: Term) -> bool
    decreases t,
{
    match t {
        Term::Type(_) => false,
        Term::Var(_, ty) => ty == TermType::Any,
        Term::Cons(h, tl) => pure(*h) && pure(*tl),
        _ => true,
    }
}

/// Every term bound in `m` is pure.
pub open spec fn pure_map(m: Seq<Option<Term>>) -> bool {
    forall|z: Var| #[trigger] lookup(m, z) is Some ==> pure(lookup(m, z)->Some_0)
}

/// `m2` keeps every variable of `m1` bound, and every binding of `m1` other
/// than a variable's binding to itself.
pub open spec fn extends(m1: Seq<Option<Term>>, m2: Seq<Option<Term>>) -> bool {
    forall|z: Var|
        #[trigger] lookup(m1, z) is Some ==> lookup(m2, z) is Some && (!self_bound(m1, z) ==> lookup(
            m2,
            z,
        ) == lookup(m1, z))
}

/// `x` and `y` resolve under `m` to the same term, down to pairs nested
/// `k` deep.
pub open spec fn agree(x: Term, y: Term, m: Seq<Option<Term>>, k: nat) -> bool
    decreases k,
{
    match (walk(x, m), walk(y, m)) {
        (Term::Cons(h1, t1), Term::Cons(h2, t2)) => k == 0 || (agree(*h1, *h2, m, (k - 1) as nat)
            && agree(*t1, *t2, m, (k - 1) as nat)),
        (wx, wy) => same(wx, wy),
    }
}

proof fn lemma_same_refl(t: Term)
    ensures
        same(t, t),
    decreases t,
{
    if let Term::Cons(h, tl) = t {
        lemma_same_refl(*h);
        lemma_same_refl(*tl);
    }
}

proof fn lemma_lookup_bind(m: Seq<Option<Term>>, v: Var, s: Term, x: Var)
    ensures
        lookup(bind(m, v, s), x) == if x == v {
            Some(s)
        } else {
            lookup(m, x)
        },
{
    let m2 = bind(m, v, s);
    if (v.0 as int) >= m.len() && x != v && (x.0 as int) < m2.len() && (x.0 as int) >= m.len() {
        assert(m2[x.0 as int] == None::<Term>);
    }
}

proof fn lemma_walk_pure(t: Term, m: Seq<Option<Term>>)
    requires
        pure_map(m),
        pure(t),
    ensures
        pure(walk(t, m)),
    decreases var_rank(t),
{
    if let Term::Var(x, _) = t {
        if let Some(q) = lookup(m, x) {
            if let Term::Var(y, _) = q {
                if y != x && y.0 < x.0 {
                    lemma_walk_pure(q, m);
                }
            }
        }
    }
}

/// Under an extension, a walk continues from where it ended before.
proof fn lemma_walk_extends(t: Term, m1: Seq<Option<Term>>, m2: Seq<Option<Term>>)
    requires
        descending(m1),
        descending(m2),
        extends(m1, m2),
    ensures
        walk(t, m2) == walk(walk(t, m1), m2),
    decreases var_rank(t),
{
    if let Term::Var(x, _) = t {
        if let Some(q) = lookup(m1, x) {
            assert(lookup(m2, x) is Some);
            match q {
                Term::Var(y, _) => {
                    if y != x {
                        assert(lookup(m2, x) == Some(q));
                        lemma_walk_extends(q, m1, m2);
                    }
                },
                _ => {
                    assert(lookup(m2, x) == Some(q));
                },
            }
        }
    }
}

proof fn lemma_bind_keeps(m: Seq<Option<Term>>, v: Var, s: Term)
    requires
        settled(m, Term::Var(v, TermType::Any)),
        descending(m),
        pure_map(m),
        s matches Term::Var(y, _) ==> y.0 < v.0,
        pure(s),
    ensures
        extends(m, bind(m, v, s)),
        descending(bind(m, v, s)),
        pure_map(bind(m, v, s)),
{
    let m2 = bind(m, v, s);
    assert forall|z: Var| #[trigger] lookup(m, z) is Some implies lookup(m2, z) is Some && (
    !self_bound(m, z) ==> lookup(m2, z) == lookup(m, z)) by {
        lemma_lookup_bind(m, v, s, z);
    }
    assert forall|z: Var|
        (#[trigger] lookup(m2, z) is Some && lookup(m2, z)->Some_0 is Var) implies lookup(
        m2,
        z,
    )->Some_0->Var_0.0 <= z.0 by {
        lemma_lookup_bind(m, v, s, z);
    }
    assert forall|z: Var| #[trigger] lookup(m2, z) is Some implies pure(lookup(m2, z)->Some_0) by {
        lemma_lookup_bind(m, v, s, z);
    }
}

proof fn lemma_agree_same_walks(x: Term, y: Term, m: Seq<Option<Term>>, k: nat)
    requires
        walk(x, m) == walk(y, m),
    ensures
        agree(x, y, m, k),
    decreases k,
{
    match walk(x, m) {
        Term::Cons(h, tl) => {
            if k > 0 {
                lemma_agree_same_walks(*h, *h, m, (k - 1) as nat);
                lemma_agree_same_walks(*tl, *tl, m, (k - 1) as nat);
            }
        },
        w => {
            lemma_same_refl(w);
        },
    }
}

/// Agreement at every depth survives an extension of the substitution.
proof fn lemma_agree_extends(x: Term, y: Term, m1: Seq<Option<Term>>, m2: Seq<Option<Term>>, k: nat)
    requires
        descending(m1),
        descending(m2),
        extends(m1, m2),
        forall|j: nat| agree(x, y, m1, j),
    ensures
        agree(x, y, m2, k),
    decreases k,
{
    let wx = walk(x, m1);
    let wy = walk(y, m1);
    lemma_walk_extends(x, m1, m2);
    lemma_walk_extends(y, m1, m2);
    assert(agree(x, y, m1, 0));
    match (wx, wy) {
        (Term::Cons(h1, t1), Term::Cons(h2, t2)) => {
            if k > 0 {
                assert forall|j: nat| agree(*h1, *h2, m1, j) && agree(*t1, *t2, m1, j) by {
                    assert(agree(x, y, m1, j + 1));
                }
                lemma_agree_extends(*h1, *h2, m1, m2, (k - 1) as nat);
                lemma_agree_extends(*t1, *t2, m1, m2, (k - 1) as nat);
            }
        },
        _ => {
            assert(same(wx, wy));
            if wx is Var {
                assert(wx == wy);
                lemma_agree_same_walks(x, y, m2, k);
            } else {
                assert(!(wx is Cons && wy is Cons));
            }
        },
    }
}

/// A successful unification extends the substitution, keeps it descending
/// and pure, and leaves the two terms agreeing at every depth.
proof fn lemma_unify_agrees(a: Term, b: Term, u: Trail, n: nat)
    requires
        unify_n(a, b, u, n) is Some,
        descending(u.0),
        pure_map(u.0),
        pure(a),
        pure(b),
    ensures
        descending(unify_n(a, b, u, n)->Some_0.0),
        pure_map(unify_n(a, b, u, n)->Some_0.0),
        extends(u.0, unify_n(a, b, u, n)->Some_0.0),
        unify_n(a, b, u, n)->Some_0.1.len() >= u.1.len(),
        unify_n(a, b, u, n)->Some_0.1.len() == u.1.len() ==> unify_n(a, b, u, n)->Some_0.0
            == u.0,
        forall|k: nat| agree(a, b, unify_n(a, b, u, n)->Some_0.0, k),
    decreases n,
{
    let m = u.0;
    let x = walk(a, m);
    let y = walk(b, m);
    crate::subst::lemma_walk_settled(a, m);
    crate::subst::lemma_walk_settled(b, m);
    lemma_walk_pure(a, m);
    lemma_walk_pure(b, m);
    let u2 = unify_n(a, b, u, n)->Some_0;
    match decide(x, y) {
        Step::Same => {
            assert(u2 == u);
            assert forall|k: nat| agree(a, b, m, k) by {
                lemma_same_refl(x);
                if !(x is String) {
                    assert(x == y);
                }
            }
        },
        Step::Clash => {},
        Step::Bind(v, t) => {
            let m2 = bind(m, v, t);
            assert(u2.0 == m2);
            lemma_bind_keeps(m, v, t);
            lemma_walk_extends(a, m, m2);
            lemma_walk_extends(b, m, m2);
            lemma_lookup_bind(m, v, t, v);
            assert(walk(a, m2) == walk(b, m2));
            assert forall|k: nat| agree(a, b, m2, k) by {
                lemma_agree_same_walks(a, b, m2, k);
            }
        },
        Step::Join(big, small, ty) => {
            let s2 = Term::Var(small, TermType::Any);
            let m2 = bind(m, big, s2);
            assert(ty == TermType::Any);
            assert(u2.0 == m2);
            lemma_bind_keeps(m, big, s2);
            lemma_walk_extends(a, m, m2);
            lemma_walk_extends(b, m, m2);
            lemma_lookup_bind(m, big, s2, big);
            assert(walk(Term::Var(big, TermType::Any), m2) == walk(s2, m2));
            assert(walk(a, m2) == walk(b, m2));
            assert forall|k: nat| agree(a, b, m2, k) by {
                lemma_agree_same_walks(a, b, m2, k);
            }
        },
        Step::Pairs(h1, h2, t1, t2) => {
            let u1 = unify_n(h1, h2, u, (n - 1) as nat)->Some_0;
            lemma_unify_agrees(h1, h2, u, (n - 1) as nat);
            lemma_unify_agrees(t1, t2, u1, (n - 1) as nat);
            let m1 = u1.0;
            let m2 = u2.0;
            assert(extends(m, m2)) by {
                assert forall|z: Var| #[trigger] lookup(m, z) is Some implies lookup(m2, z) is Some && (
                !self_bound(m, z) ==> lookup(m2, z) == lookup(m, z)) by {
                    assert(lookup(m1, z) is Some);
                    if !self_bound(m, z) {
                        assert(lookup(m1, z) == lookup(m, z));
                        assert(!self_bound(m1, z));
                    }
                }
            }
            assert forall|k: nat| agree(h1, h2, m2, k) by {
                lemma_agree_extends(h1, h2, m1, m2, k);
            }
            lemma_walk_extends(a, m, m2);
            lemma_walk_extends(b, m, m2);
            assert forall|k: nat| agree(a, b, m2, k) by {
                if k > 0 {
                    assert(agree(h1, h2, m2, (k - 1) as nat));
                    assert(agree(t1, t2, m2, (k - 1) as nat));
                }
            }
        },
    }
}

proof fn lemma_agree_deep(a: Term, b: Term, m: Seq<Option<Term>>, d: nat, n: nat)
    requires
        grounded(a, m, d),
        grounded(b, m, d),
        agree(a, b, m, d),
        d <= n,
    ensures
        same(deep_walk_n(a, m, n), deep_walk_n(b, m, n)),
    decreases d,
{
    match (walk(a, m), walk(b, m)) {
        (Term::Cons(h1, t1), Term::Cons(h2, t2)) => {
            lemma_agree_deep(*h1, *h2, m, (d - 1) as nat, (n - 1) as nat);
            lemma_agree_deep(*t1, *t2, m, (d - 1) as nat, (n - 1) as nat);
        },
        _ => {},
    }
}

/// An equality answers only with states in which its two sides resolve to
/// the same term. Stated for sides and a substitution free of type
/// sentinels and typed variables, a substitution whose variable bindings
/// descend (every [`crate::subst::Subst`] does), and an answer that resolves
/// both sides without looping.
pub proof fn eq_answers_equate_sides(a: Term, b: Term, s: Store, answer: Store)
    requires
        eq_result(a, b, s) == Some(answer),
        descending(s.0),
        pure_map(s.0),
        pure(a),
        pure(b),
        grounded(a, answer.0, DEPTH as nat),
        grounded(b, answer.0, DEPTH as nat),
    ensures
        same(deep_walk(a, answer.0), deep_walk(b, answer.0)),
{
    let u: Trail = (s.0, Seq::empty());
    lemma_unify_agrees(a, b, u, DEPTH as nat);
    let u2 = unify(a, b, u)->Some_0;
    assert(answer.0 == u2.0);
    lemma_agree_deep(a, b, answer.0, DEPTH as nat, DEPTH as nat);
}


/// Resolving `t` under `m` reaches only settled variables and atoms, with
/// pairs nested at most `d` deep: no chain of bindings loops through a pair.
pub open spec fn grounded(t: Term, m: Seq<Option<Term>>, d: nat) -> bool
    decreases d,
{
    settled(m, walk(t, m)) && match walk(t, m) {
        Term::Cons(h, tl) => d > 0 && grounded(*h, m, (d - 1) as nat) && grounded(
            *tl,
            m,
            (d - 1) as nat,
        ),
        _ => true,
    }
}

proof fn lemma_deep_walk_settled(t: Term, m: Seq<Option<Term>>, d: nat, n: nat, k: int)
    requires
        grounded(t, m, d),
        d <= n,
        0 <= k < vars_in(deep_walk_n(t, m, n)).len(),
    ensures
        settled(m, Term::Var(vars_in(deep_walk_n(t, m, n))[k], TermType::Any)),
    decreases d,
{
    let w = walk(t, m);
    match w {
        Term::Cons(h, tl) => {
            let dh = deep_walk_n(*h, m, (n - 1) as nat);
            let dt = deep_walk_n(*tl, m, (n - 1) as nat);
            assert(deep_walk_n(t, m, n) == Term::Cons(Box::new(dh), Box::new(dt)));
            assert(vars_in(deep_walk_n(t, m, n)) == vars_in(dh) + vars_in(dt));
            if k < vars_in(dh).len() {
                lemma_deep_walk_settled(*h, m, (d - 1) as nat, (n - 1) as nat, k);
            } else {
                lemma_deep_walk_settled(*tl, m, (d - 1) as nat, (n - 1) as nat, k - vars_in(dh).len());
            }
        },
        Term::Var(v, ty) => {
            assert(deep_walk_n(t, m, n) == w);
            assert(vars_in(w) == seq![v]);
        },
        _ => {
            assert(deep_walk_n(t, m, n) == w);
        },
    }
}

/// Every variable left in a reified value is unbound (or bound only to
/// itself with a type): reification leaves no binding unfollowed, when the
/// substitution resolves the query variable without looping.
pub proof fn reified_values_are_resolved(m: Seq<Option<Term>>, i: int, v: Var)
    requires
        0 <= i <= u32::MAX,
        grounded(query_var(i), m, DEPTH as nat),
        vars_in(deep_walk(query_var(i), m)).contains(v),
    ensures
        settled(m, Term::Var(v, TermType::Any)),
{
    let k = choose|k: int|
        0 <= k < vars_in(deep_walk(query_var(i), m)).len() && vars_in(deep_walk(query_var(i), m))[k]
            == v;
    lemma_deep_walk_settled(query_var(i), m, DEPTH as nat, DEPTH as nat, k);
}


/// The first use of a `Fresh` node hands its body the next `wanted()`
/// numbers of the counter, when they fit: distinct variables, none numbered
/// before, and the counter moves past them.
pub proof fn fresh_body_gets_new_variables<B: Binding>(e: EngV<B>, id: usize, v: Var)
    requires
        id < e.0.len(),
        e.0[id as int] matches Node::Fresh(FreshInner::Pending(f)) && e.1 + f.wanted()
            <= u32::MAX,
        v.0 < e.1,
    ensures
        e.0[id as int] matches Node::Fresh(FreshInner::Pending(f)) && {
            let vars = numbered(e.1, f.wanted());
            let (e2, c) = resolve_s(e, id);
            &&& c == Some(intern_s(e.0, f.body(vars)).1)
            &&& e2.1 == e.1 + f.wanted()
            &&& !e2.2 || e.2
            &&& !vars.contains(v)
            &&& forall|i: int, j: int|
                0 <= i < vars.len() && 0 <= j < vars.len() && i != j ==> vars[i] != vars[j]
        },
{
    if let Node::Fresh(FreshInner::Pending(f)) = e.0[id as int] {
        let vars = numbered(e.1, f.wanted());
        if vars.contains(v) {
            let i = choose|i: int| 0 <= i < vars.len() && vars[i] == v;
            assert(vars[i].0 == e.1 + i);
        }
        assert forall|i: int, j: int|
            0 <= i < vars.len() && 0 <= j < vars.len() && i != j implies vars[i] != vars[j] by {
            assert(vars[i].0 == e.1 + i && vars[j].0 == e.1 + j);
        }
    }
}

/// The first `n` answers of a query are a prefix of all its answers: what
/// [`crate::query::run`] returns begins what [`crate::query::run_all`]
/// returns, in order, for `n` within the step budget; and there are exactly
/// `n` of them when the query has at least `n` answers.
pub proof fn run_is_prefix_of_run_all<B: Binding>(q: QueryView<B>, n: nat, budget: nat)
    requires
        n <= budget,
    ensures
        take_s(q, n).1.len() <= take_all_s(q, budget).1.len(),
        take_s(q, n).1 == take_all_s(q, budget).1.subrange(0, take_s(q, n).1.len() as int),
        take_s(q, n).1.len() == if n <= take_all_s(q, budget).1.len() {
            n
        } else {
            take_all_s(q, budget).1.len()
        },
    decreases n,
{
    if n > 0 {
        let (q2, r) = next_s(q);
        if let Some(x) = r {
            run_is_prefix_of_run_all(q2, (n - 1) as nat, (budget - 1) as nat);
            let a = take_s(q2, (n - 1) as nat).1;
            let b = take_all_s(q2, (budget - 1) as nat).1;
            assert((seq![x] + b).subrange(0, (seq![x] + a).len() as int) =~= seq![x] + b.subrange(0, a.len() as int));
        }
    } else {
        assert(take_all_s(q, budget).1.subrange(0, 0) =~= Seq::<StV>::empty());
    }
}

} // verus!
