use std::rc::Rc;

use kanren::display::AsScheme;
use kanren::goal::Binding;
use kanren::query::{Query, StateN};
use kanren::term::{list, list_dot, Term, TermType, Var, NULL};

// Closure-backed bindings, so that goals read as in the library's examples.

#[derive(Clone)]
struct Lazy {
    arity: usize,
    body: Rc<dyn Fn(&[Var]) -> Goal>,
}

impl Binding for Lazy {
    fn arity(&self) -> usize {
        self.arity
    }

    fn bind(&self, vars: &Vec<Var>) -> Goal {
        (self.body)(vars)
    }
}

type Goal = kanren::goal::Goal<Lazy>;

trait Vars<const N: usize> {
    fn lazy(self) -> Lazy;
}

impl<F: Fn() -> Goal + 'static> Vars<0> for F {
    fn lazy(self) -> Lazy {
        Lazy { arity: 0, body: Rc::new(move |_| self()) }
    }
}

impl<F: Fn(Var) -> Goal + 'static> Vars<1> for F {
    fn lazy(self) -> Lazy {
        Lazy { arity: 1, body: Rc::new(move |v| self(v[0])) }
    }
}

impl<F: Fn(Var, Var) -> Goal + 'static> Vars<2> for F {
    fn lazy(self) -> Lazy {
        Lazy { arity: 2, body: Rc::new(move |v| self(v[0], v[1])) }
    }
}

impl<F: Fn(Var, Var, Var) -> Goal + 'static> Vars<3> for F {
    fn lazy(self) -> Lazy {
        Lazy { arity: 3, body: Rc::new(move |v| self(v[0], v[1], v[2])) }
    }
}

impl<F: Fn(Var, Var, Var, Var) -> Goal + 'static> Vars<4> for F {
    fn lazy(self) -> Lazy {
        Lazy { arity: 4, body: Rc::new(move |v| self(v[0], v[1], v[2], v[3])) }
    }
}

fn fresh<const N: usize>(f: impl Vars<N>) -> Goal {
    kanren::goal::fresh(f.lazy())
}

fn jield(f: impl Fn() -> Goal + 'static) -> Goal {
    kanren::goal::jield(f.lazy())
}

fn query<const N: usize>(f: impl Vars<N>) -> Query<Lazy> {
    kanren::query::query(f.lazy())
}

fn run_all<const N: usize>(f: impl Vars<N>) -> Vec<StateN> {
    kanren::query::run_all(f.lazy()).expect("variable counter overflow")
}

fn run<const N: usize>(n: usize, f: impl Vars<N>) -> Vec<StateN> {
    kanren::query::run(n, f.lazy()).expect("variable counter overflow")
}

fn eq(a: impl Into<Term>, b: impl Into<Term>) -> Goal {
    kanren::goal::eq(a.into(), b.into())
}

fn neq(a: impl Into<Term>, b: impl Into<Term>) -> Goal {
    kanren::goal::neq(a.into(), b.into())
}

fn num(a: impl Into<Term>) -> Goal {
    kanren::goal::num(a.into())
}

fn str(a: impl Into<Term>) -> Goal {
    kanren::goal::str(a.into())
}

fn both(a: Goal, b: Goal) -> Goal {
    kanren::goal::both(a, b)
}

fn either(a: Goal, b: Goal) -> Goal {
    kanren::goal::either(a, b)
}

fn all(v: impl IntoIterator<Item = Goal>) -> Goal {
    kanren::goal::all(v.into_iter().collect())
}

fn any(v: impl IntoIterator<Item = Goal>) -> Goal {
    kanren::goal::any(v.into_iter().collect())
}

fn cond<T, R>(table: T) -> Goal
where
    T: IntoIterator<Item = R>,
    R: IntoIterator<Item = Goal>,
{
    kanren::goal::cond(table.into_iter().map(|row| row.into_iter().collect()).collect())
}

fn cons(a: impl Into<Term>, b: impl Into<Term>) -> Term {
    kanren::term::cons(a.into(), b.into())
}

fn t(x: impl Into<Term>) -> Term {
    x.into()
}

const NUM: Term = Term::Type(TermType::Number);
const STR: Term = Term::Type(TermType::String);
const ANY: Term = Term::Type(TermType::Any);

#[test]
fn test_number_display() {
    assert_eq!(AsScheme(run_all(|| num(1))).to_string(), "(())");
    assert_eq!(AsScheme(run_all(|| num(""))).to_string(), "()");
    assert_eq!(AsScheme(run_all(|x| num(x))).to_string(), "((#0))");
}

#[test]
fn test_type_display() {
    assert_eq!(AsScheme(run_all(|x| eq(x, list(vec![ANY, ANY])))).to_string(), "(((_ _)))");
    assert_eq!(AsScheme(run_all(|x| eq(x, list(vec![NUM, NUM])))).to_string(), "(((# #)))");
    assert_eq!(AsScheme(run_all(|x| eq(x, list(vec![STR, STR])))).to_string(), "(((* *)))");
    assert_eq!(AsScheme(run_all(|x| eq(x, list_dot(vec![ANY], ANY)))).to_string(), "(((_ . _)))");
    assert_eq!(AsScheme(run_all(|x, y| all([eq(x, list(vec![t(y), t(y)])), eq(y, NUM) ]))).to_string(), "(((#1 #1) #1))");

    let result = run(10, |result| {
        fresh(move |a, b, c| { all(vec![
            eq(result, list(vec![t(a), t(b), t(c)])),
            num(b)
        ])})
    });
    assert_eq!(AsScheme(result).to_string(), "(((_1 #2 _3)))");
}

#[test]
fn test_number_eq() {
    assert_eq!(AsScheme(run_all(|x| all([eq(x, 1), num(x)]) )).to_string(), "((1))");
    assert_eq!(AsScheme(run_all(|x| all([num(x), eq(x, 1)]) )).to_string(), "((1))");
    assert_eq!(AsScheme(run_all(|x, y| all([
        eq(list(vec![t(x), t(y)]), list(vec![t(1), NUM])),
        eq(list(vec![t(x), t(y)]), list(vec![NUM, t(2)]))
    ]))).to_string(), "((1 2))");

    assert_eq!(AsScheme(run_all(|x, y| all([
        num(x),
        num(y),
    ]))).to_string(), "((#0 #1))");

    assert_eq!(AsScheme(run_all(|x, y| all([
        num(x),
        num(y),
        eq(x, y)
    ]))).to_string(), "((#0 #0))");

    assert_eq!(AsScheme(run_all(|x, y| all([num(x), str(y), eq(x, y)]) )).to_string(), "()");
}

#[test]
fn test_number_neq() {
    assert_eq!(AsScheme(run_all(|x| all([neq(x, NUM)]) )).to_string(), "((_0) : (((_0 . #0))))");
    assert_eq!(AsScheme(run_all(|x| all([neq(x, NUM), neq(x, STR)]) )).to_string(), "((_0) : (((_0 . #0)) ((_0 . *0))))");
    assert_eq!(AsScheme(run_all(|x| all([neq(x, 1), num(x)]) )).to_string(), "((#0) : (((_0 . 1))))");
    assert_eq!(AsScheme(run_all(|x| all([num(x), neq(x, 1),]) )).to_string(), "((#0) : (((_0 . 1))))");
}

#[test]
fn test_operators() {
    assert_eq!(AsScheme(run_all(|| eq(1, 1))).to_string(), "(())");
    assert_eq!(AsScheme(run_all(|| eq(1, 2))).to_string(), "()");

    assert_eq!(
        AsScheme(run_all(|x| either(eq(x, 1), eq(x, 1)))).to_string(),
        "((1) (1))"
    );
    assert_eq!(
        AsScheme(run_all(|x| either(eq(x, 1), eq(x, 2)))).to_string(),
        "((1) (2))"
    );
    assert_eq!(
        AsScheme(run_all(|x, y| either(eq(x, 1), eq(y, 2)))).to_string(),
        "((1 _1) (_0 2))"
    );

    assert_eq!(
        AsScheme(run_all(|x| both(eq(x, 1), eq(x, 1)))).to_string(),
        "((1))"
    );
    assert_eq!(
        AsScheme(run_all(|x| both(eq(x, 1), eq(x, 2)))).to_string(),
        "()"
    );
    assert_eq!(
        AsScheme(run_all(|x, y| both(eq(x, 1), eq(y, 2)))).to_string(),
        "((1 2))"
    );

    assert_eq!(
        AsScheme(run_all(|| fresh(|x, y| both(eq(x, 1), eq(y, 2))))).to_string(),
        "(())"
    );
    assert_eq!(
        AsScheme(run_all(|x| fresh(move |y| both(eq(x, 1), eq(y, 2))))).to_string(),
        "((1))"
    );
}

#[test]
fn test_and_gate() {
    fn and(a: Var, b: Var, o: Var) -> Goal {
        cond([
            [eq(a, 0), eq(b, 0), eq(o, 0)],
            [eq(a, 0), eq(b, 1), eq(o, 0)],
            [eq(a, 1), eq(b, 0), eq(o, 0)],
            [eq(a, 1), eq(b, 1), eq(o, 1)],
        ])
    }

    assert_eq!(
        AsScheme(run_all(|x, y| and(x, y, x))).to_string(),
        "((0 0) (0 1) (1 1))"
    );
}

#[test]
fn test_yield() {
    fn fives(x: Var) -> Goal {
        either(eq(x, 5), jield(move || fives(x)))
    }

    fn sixes(x: Var) -> Goal {
        either(eq(x, 6), jield(move || sixes(x)))
    }

    assert_eq!(
        AsScheme(run(5, |x| fives(x))).to_string(),
        "((5) (5) (5) (5) (5))"
    );

    assert_eq!(
        AsScheme(run(5, |x| either(fives(x), sixes(x)))).to_string(),
        "((5) (6) (5) (6) (5))"
    );

    assert_eq!(
        AsScheme(run(12, |x, y| both(
            either(eq(x, 6), fives(x)),
            either(eq(y, 5), sixes(y))
        )))
        .to_string(),
        "((6 5) (6 6) (5 5) (5 6) (6 6) (5 6) (5 5) (5 6) (6 6) (5 6) (5 6) (5 5))"
    );
}

#[test]
fn test_concat() {
    fn concat(l: Var, r: Var, out: Var) -> Goal {
        fresh(move |a, d, res| {
            cond([
                vec![eq(NULL, l), eq(r, out)],
                vec![
                    eq(cons(a, d), l),
                    eq(cons(a, res), out),
                    jield(move || concat(d, r, res)),
                ],
            ])
        })
    }

    fn l() -> Term {
        cons(1, cons(2, cons(3, cons(4, NULL))))
    }

    assert_eq!(
        AsScheme(run_all(move |x, y| fresh(move |r| both(
            eq(r, l()),
            concat(x, y, r)
        ))))
        .to_string(),
        "((() (1 2 3 4)) ((1) (2 3 4)) ((1 2) (3 4)) ((1 2 3) (4)) ((1 2 3 4) ()))"
    );
}

fn bounded(set: Var) -> Goal {
    fresh(move |head, tail| {
        cond([
            vec![eq(set, NULL)],
            vec![eq(set, cons(head, tail)), jield(move || bounded(tail))],
        ])
    })
}

fn contains(set: Var, x: Var) -> Goal {
    fresh(move |head, tail| {
        cond([
            vec![eq(set, cons(head, tail)), eq(head, x), bounded(tail)],
            vec![
                eq(set, cons(head, tail)),
                neq(head, x),
                jield(move || contains(tail, x)),
            ],
        ])
    })
}

fn excludes(set: Var, x: Var) -> Goal {
    fresh(move |head, tail| {
        cond([
            vec![eq(set, NULL)],
            vec![
                eq(set, cons(head, tail)),
                neq(head, x),
                jield(move || excludes(tail, x)),
            ],
        ])
    })
}

fn set_eq(a: Var, b: Var) -> Goal {
    both(subset(a, b), subset(b, a))
}

// Set a is a subset of b
fn subset(a: Var, b: Var) -> Goal {
    fresh(move |head, tail| {
        cond([
            vec![eq(a, NULL)],
            vec![
                eq(a, cons(head, tail)),
                contains(b, head),
                jield(move || subset(tail, b)),
            ],
        ])
    })
}

fn superset(a: Var, b: Var) -> Goal {
    subset(b, a)
}

fn set_insert(set: Var, x: Var, result: Var) -> Goal {
    fresh(move |head, tail, c| {
        cond([
            vec![eq(set, NULL), eq(result, cons(x, NULL))],
            vec![eq(set, cons(head, tail)), eq(head, x), eq(result, set)],
            vec![
                eq(set, cons(head, tail)),
                neq(head, x),
                eq(result, cons(head, c)),
                jield(move || set_insert(tail, x, c)),
            ],
        ])
    })
}

fn set_remove(set: Var, x: Var, result: Var) -> Goal {
    fresh(move |head, tail, c| {
        cond([
            vec![eq(set, NULL), eq(result, NULL)],
            vec![
                eq(set, cons(head, tail)),
                eq(head, x),
                jield(move || set_remove(tail, x, result)),
            ],
            vec![
                eq(set, cons(head, tail)),
                neq(head, x),
                jield(move || set_remove(tail, x, c)),
                set_insert(c, head, result),
            ],
        ])
    })
}

fn set_join(a: Var, b: Var, result: Var) -> Goal {
    fresh(move |head, tail, c| {
        cond([
            vec![eq(b, NULL), eq(result, a)],
            vec![
                eq(b, cons(head, tail)),
                set_insert(a, head, c),
                jield(move || set_join(c, tail, result)),
            ],
        ])
    })
}

fn set_minimal(set: Var) -> Goal {
    fresh(move |head, tail| {
        cond([
            vec![eq(set, NULL)],
            vec![
                eq(set, cons(head, tail)),
                excludes(tail, head),
                jield(move || set_minimal(tail)),
            ],
        ])
    })
}

#[test]
fn test_set() {
    assert_eq!(
        AsScheme(run_all(|_| fresh(move |s, x| all([
            eq(s, cons(1, cons(2, cons(3, NULL)))),
            eq(x, 2),
            excludes(s, x),
        ]))))
        .to_string(),
        "()"
    );

    assert_eq!(
        AsScheme(run_all(|_| fresh(move |s, x| all([
            eq(s, cons(1, cons(2, cons(3, NULL)))),
            eq(x, 4),
            excludes(s, x),
        ]))))
        .to_string(),
        "((_0))"
    );

    assert_eq!(
        AsScheme(run_all(|q| fresh(move |s, x| all([
            eq(s, cons(1, cons(2, cons(3, NULL)))),
            eq(x, 3),
            set_insert(s, x, q),
        ]))))
        .to_string(),
        "(((1 2 3)))"
    );

    assert_eq!(
        AsScheme(run_all(|q| fresh(move |s, x| all([
            eq(s, cons(1, cons(2, cons(3, NULL)))),
            eq(x, 4),
            set_insert(s, x, q),
        ]))))
        .to_string(),
        "(((1 2 3 4)))"
    );

    assert_eq!(
        AsScheme(run_all(|q| fresh(move |a, b| all([
            eq(a, cons(1, cons(2, NULL))),
            eq(b, cons(2, cons(3, NULL))),
            set_join(a, b, q),
        ]))))
        .to_string(),
        "(((1 2 3)))"
    );

    assert_eq!(
        AsScheme(run_all(|q| fresh(move |a, b| all([
            eq(a, cons(1, cons(2, NULL))),
            eq(b, NULL),
            set_join(a, b, q),
        ]))))
        .to_string(),
        "(((1 2)))"
    );

    assert_eq!(
        AsScheme(run_all(|| fresh(move |x, y| all([
            eq(x, cons(1, cons(2, NULL))),
            eq(y, cons(1, cons(2, cons(3, NULL)))),
            subset(x, y),
        ]))))
        .to_string(),
        "(())"
    );

    assert_eq!(
        AsScheme(run_all(|| fresh(move |x, y| all([
            eq(x, cons(1, cons(2, cons(3, NULL)))),
            eq(y, cons(1, cons(2, NULL))),
            subset(x, y),
        ]))))
        .to_string(),
        "()"
    );

    assert_eq!(
        AsScheme(run_all(|| fresh(move |x, y| all([
            eq(x, cons(1, cons(2, NULL))),
            eq(y, cons(1, cons(2, cons(3, NULL)))),
            superset(x, y),
        ]))))
        .to_string(),
        "()"
    );

    assert_eq!(
        AsScheme(run_all(|| fresh(move |x, y| all([
            eq(x, cons(1, cons(2, cons(3, NULL)))),
            eq(y, cons(1, cons(2, NULL))),
            superset(x, y),
        ]))))
        .to_string(),
        "(())"
    );

    assert_eq!(
        AsScheme(run_all(|| fresh(move |x| all([
            eq(x, cons(1, cons(2, cons(1, NULL)))),
            set_minimal(x),
        ]))))
        .to_string(),
        "()"
    );

    assert_eq!(
        AsScheme(run_all(|| fresh(move |x| all([
            eq(x, cons(1, cons(2, cons(3, NULL)))),
            set_minimal(x),
        ]))))
        .to_string(),
        "(())"
    );

    assert_eq!(
        AsScheme(run_all(|| fresh(move |x| all([
            eq(x, cons(1, cons(2, cons(1, NULL)))),
            set_minimal(x),
        ]))))
        .to_string(),
        "()"
    );

    assert_eq!(
        AsScheme(run_all(|q| fresh(move |x, y| all([
            eq(x, cons(1, cons(2, cons(1, NULL)))),
            eq(y, 1),
            set_remove(x, y, q),
        ]))))
        .to_string(),
        "(((2)))"
    );

    assert_eq!(
        AsScheme(run_all(|q| fresh(move |x, y| all([
            eq(x, cons(1, cons(2, cons(1, NULL)))),
            eq(y, 2),
            set_remove(x, y, q),
        ]))))
        .to_string(),
        "(((1)))"
    );

    assert_eq!(
        AsScheme(run_all(|x, y| fresh(move |set| all([
            eq(set, cons(1, cons(2, NULL))),
            contains(set, x),
            contains(set, y),
        ]))))
        .to_string(),
        "((1 1) (1 2) (2 1) (2 2))"
    );

    // there are inf sets that contain 1 and 2, so only show that there exists at least one
    assert_eq!(
        AsScheme(run(
            1,
            || fresh(move |x, y, set| all([
                eq(x, 1),
                eq(y, 2),
                contains(set, x),
                contains(set, y),
            ]))
        ))
        .to_string(),
        "(())"
    );

    assert_eq!(
        AsScheme(run(2, |q| fresh(move |set| all([
            eq(set, cons(1, cons(2, NULL))),
            set_eq(q, set),
            set_minimal(q)
        ]))))
        .to_string(),
        "(((1 2)) ((2 1)))"
    );

    assert_eq!(
        AsScheme(run_all(|q| fresh(move |x| all([
            eq(x, cons(1, cons(2, cons(3, NULL)))),
            excludes(x, q)
        ]))))
        .to_string(),
        "((_0) : (((_0 . 1)) ((_0 . 2)) ((_0 . 3))))"
    );
}

#[test]
fn neq_test() {
    assert_eq!(AsScheme(run_all(|_| neq(5, 6))).to_string(), "((_0))");
    assert_eq!(AsScheme(run_all(|_| neq(5, 5))).to_string(), "()");
    assert_eq!(
        AsScheme(run_all(|q| neq(q, 6))).to_string(),
        "((_0) : (((_0 . 6))))"
    );
    assert_eq!(
        AsScheme(run_all(|q| all([neq(q, 6), eq(q, 6)]))).to_string(),
        "()"
    );
    assert_eq!(
        AsScheme(run_all(|q| all([eq(q, 6), neq(q, 6)]))).to_string(),
        "()"
    );
    assert_eq!(
        AsScheme(run_all(|q| neq(q, 5))).to_string(),
        "((_0) : (((_0 . 5))))"
    );
    assert_eq!(
        AsScheme(run_all(|x, y| neq(x, y))).to_string(),
        "((_0 _1) : (((_1 . _0))))"
    );
    assert_eq!(
        AsScheme(run_all(|q| fresh(move |x| all([
            neq(5, q),
            eq(x, q),
            neq(6, x)
        ]))))
        .to_string(),
        "((_0) : (((_0 . 5)) ((_0 . 6))))"
    );

    assert_eq!(
        AsScheme(run_all(|x, y| eq(cons(5, x), cons(6, y)))).to_string(),
        "()"
    );
    assert_eq!(
        AsScheme(run_all(|x, y| neq(cons(5, x), cons(6, y)))).to_string(),
        "((_0 _1))"
    );
    assert_eq!(
        AsScheme(run_all(|x, y| eq(cons(5, x), cons(5, y)))).to_string(),
        "((_0 _0))"
    );
    assert_eq!(
        AsScheme(run_all(|x, y| neq(cons(5, x), cons(5, y)))).to_string(),
        "((_0 _1) : (((_1 . _0))))"
    );

    assert_eq!(
        AsScheme(run_all(|x| neq(cons(x, x), cons(5, 6)))).to_string(),
        "((_0))"
    );
    assert_eq!(
        AsScheme(run_all(|x| neq(cons(x, x), cons(5, 5)))).to_string(),
        "((_0) : (((_0 . 5))))"
    );
    assert_eq!(
        AsScheme(run_all(|x, y| neq(cons(x, y), cons(5, 6)))).to_string(),
        "((_0 _1) : (((_0 . 5) (_1 . 6))))"
    );
    assert_eq!(
        AsScheme(run_all(|q| all([neq(q, 2), eq(q, 2)]))).to_string(),
        "()"
    );
    assert_eq!(
        AsScheme(run_all(|p, x, y| all([
            neq(cons(5, 6), p),
            eq(cons(x, y), p),
            eq(5, x),
            eq(7, y)
        ])))
        .to_string(),
        "(((5 . 7) 5 7))"
    );
    assert_eq!(
        AsScheme(run_all(|x, y| neq(x, cons(5, y)))).to_string(),
        "((_0 _1) : (((_0 . (5 . _1)))))"
    );
}

#[test]
fn neq_case1() {
    assert_eq!(
        AsScheme(run_all(|x, y| all([neq(x, y), neq(x, 6)]))).to_string(),
        "((_0 _1) : (((_0 . 6)) ((_1 . _0))))"
    );
}

#[test]
fn constraint_test_todos() {
    assert_eq!(
        AsScheme(run_all(|_| fresh(move |x, y| neq(x, y)))).to_string(),
        "((_0))"
    );
    assert_eq!(
        AsScheme(run_all(|q| fresh(move |x| neq(q, x)))).to_string(),
        "((_0))"
    );
    assert_eq!(
        AsScheme(run_all(|q| fresh(move |x, y, z| all([
            neq(cons(y, z), x),
            eq(q, cons(x, cons(y, cons(z, NULL))))
        ]))))
        .to_string(),
        "(((_1 _2 _3)) : (((_1 . (_2 . _3)))))"
    );
    assert_eq!(
        AsScheme(run_all(|a, b| fresh(move |x, y| all([
            eq(a, x),
            eq(x, y),
            neq(y, b)
        ]))))
        .to_string(),
        "((_0 _1) : (((_1 . _0))))"
    );
    assert_eq!(
        AsScheme(run_all(|x, y| neq(x, y))).to_string(),
        "((_0 _1) : (((_1 . _0))))"
    );
    assert_eq!(
        AsScheme(run_all(|x, y| neq(y, x))).to_string(),
        "((_0 _1) : (((_1 . _0))))"
    );
}

#[test]
fn sudoku() {
    fn number(x: Var) -> Goal {
        any([
            eq(x, 1),
            eq(x, 2),
            eq(x, 3),
            eq(x, 4),
            eq(x, 5),
            eq(x, 6),
            eq(x, 7),
            eq(x, 8),
            eq(x, 9),
        ])
    }

    assert_eq!(
        AsScheme(run_all(|q| number(q))).to_string(),
        "((1) (2) (3) (4) (5) (6) (7) (8) (9))"
    );
}

#[test]
fn example2() {
    fn humans(x: Var) -> Goal {
        eq(x, list(vec![t("alice"), t("bob")]))
    }

    fn adult(x: Var, a: Var, c: Var) -> Goal {
        all([contains(a, x), excludes(c, x)])
    }

    fn child(x: Var, a: Var, c: Var) -> Goal {
        all([excludes(a, x), contains(c, x)])
    }

    fn population(hs: Var, a: Var, c: Var) -> Goal {
        fresh(move |h, ht| {
            cond([
                vec![eq(hs, NULL)],
                vec![
                    eq(hs, cons(h, ht)),
                    any([adult(h, a, c), child(h, a, c)]),
                    jield(move || population(ht, a, c)),
                ],
            ])
        })
    }

    let result = AsScheme(run(6, |a, c| {
        fresh(move |x| all([humans(x), population(x, a, c)]))
    }))
    .to_string();

    assert!(result.contains("((bob) (alice))"));
    assert!(result.contains("((alice) (bob))"));
    assert!(result.contains("((bob alice) ())"));
    assert!(result.contains("(() (bob alice))"));
    assert!(result.contains("(() (alice bob))"));
    assert!(result.contains("((alice bob) ())"));
}

#[test]
fn case1() {
    assert_eq!(
        AsScheme(run_all(|x, y| all([neq(x, 1), neq(y, 2)]))).to_string(),
        "((_0 _1) : (((_0 . 1)) ((_1 . 2))))"
    );
}

#[test]
fn test_case2() {
    assert_eq!(
        AsScheme(run_all(|x, y| all([neq(cons(x, y), cons(1, 2))]))).to_string(),
        "((_0 _1) : (((_0 . 1) (_1 . 2))))"
    );
}

#[test]
fn case3() {
    assert_eq!(
        AsScheme(run_all(|x, y| all([
            neq(cons(x, y), cons(1, 2)),
            fresh(move |t| any([eq(cons(x, y), cons(1, t)), eq(cons(x, y), cons(t, 2))]))
        ])))
        .to_string(),
        "((1 _1) : (((_1 . 2))) (_0 2) : (((_0 . 1))))"
    );
}

#[test]
fn case1a() {
    assert_eq!(
        AsScheme(run_all(|q, x| all([
            neq(q, cons(5, cons(x, x))),
            eq(q, cons(5, cons(1, 1)))
        ])))
        .to_string(),
        "(((5 1 . 1) _1) : (((_1 . 1))))"
    );
}

#[test]
fn case1b() {
    assert_eq!(
        AsScheme(run_all(|q, x| all([
            neq(q, cons(5, cons(x, x))),
            eq(x, 1),
            eq(q, cons(5, cons(1, 1)))
        ])))
        .to_string(),
        "()"
    );
}

#[test]
fn case1c() {
    assert_eq!(
        AsScheme(run_all(|q, x| all([
            neq(q, cons(5, cons(x, x))),
            neq(x, 1),
            eq(q, cons(5, cons(1, 1)))
        ])))
        .to_string(),
        "(((5 1 . 1) _1) : (((_1 . 1))))"
    );
}

#[test]
fn case2() {
    assert_eq!(
        AsScheme(run_all(|q| fresh(move |x| cond([
            vec![neq(q, cons(5, cons(x, x))), neq(x, 1)],
            vec![neq(q, 5), neq(x, 1)]
        ]))))
        .to_string(),
        "((_0) (_0) : (((_0 . 5))))"
    );
}

#[test]
fn case3a() {
    assert_eq!(
        AsScheme(run_all(|x, y| all([
            neq(cons(x, y), cons(1, 2)),
            neq(x, 1),
            neq(y, 2)
        ])))
        .to_string(),
        "((_0 _1) : (((_0 . 1)) ((_1 . 2))))"
    );
}

#[test]
fn case3b() {
    assert_eq!(
        AsScheme(run_all(|x, y| all([
            neq(cons(x, y), cons(1, 2)),
            neq(x, 1)
        ])))
        .to_string(),
        "((_0 _1) : (((_0 . 1))))"
    );
}

#[test]
fn case3c() {
    assert_eq!(
        AsScheme(run_all(|x, y| all([neq(cons(x, y), cons(1, 2)),]))).to_string(),
        "((_0 _1) : (((_0 . 1) (_1 . 2))))"
    );
}

#[test]
fn case4a() {
    assert_eq!(
        AsScheme(run_all(|x, y| all([
            neq(cons(x, y), cons(1, 2)),
            neq(cons(x, y), cons(1, 3)),
        ])))
        .to_string(),
        "((_0 _1) : (((_0 . 1) (_1 . 2)) ((_0 . 1) (_1 . 3))))"
    );
}

#[test]
fn case4b() {
    assert_eq!(
        AsScheme(run_all(|x, y| all([
            neq(cons(x, y), cons(1, 2)),
            neq(cons(x, y), cons(1, 3)),
            neq(x, 1)
        ])))
        .to_string(),
        "((_0 _1) : (((_0 . 1))))"
    );
}

#[test]
fn case4c() {
    assert_eq!(
        AsScheme(run_all(|x, y| all([
            neq(cons(x, y), cons(1, 2)),
            neq(cons(x, y), cons(1, 3)),
            neq(y, 2),
            neq(y, 3)
        ])))
        .to_string(),
        "((_0 _1) : (((_1 . 2)) ((_1 . 3))))"
    );
}

#[test]
fn case5a() {
    assert_eq!(
        AsScheme(run_all(|q| fresh(move |x| all([neq(
            q,
            cons(5, cons(x, x))
        )]))))
        .to_string(),
        "((_0))"
    );
}

#[test]
fn case5b() {
    assert_eq!(
        AsScheme(run_all(|q| fresh(move |x| all([
            neq(q, cons(5, cons(x, x))),
            eq(x, 1)
        ]))))
        .to_string(),
        "((_0) : (((_0 . (5 1 . 1)))))"
    );
}

#[test]
fn case6() {
    assert_eq!(
        AsScheme(run_all(|q| fresh(move |x, y| neq(q, cons(x, y))))).to_string(),
        "((_0))"
    );
}

#[test]
fn example1() {
    fn facts(x: Var, y: Var, z: Var) -> Goal {
        cond([
            vec![eq(x, "male"), eq(y, "monarch"), eq(z, "king")],
            vec![eq(x, "female"), eq(y, "monarch"), eq(z, "queen")],
        ])
    }

    assert_eq!(
        AsScheme(run_all(|q| fresh(move |king, male, female, x| all([
            eq(king, "king"),
            eq(male, "male"),
            eq(female, "female"),
            facts(male, x, king),
            facts(female, x, q)
        ]))))
        .to_string(),
        "((queen))"
    );
}

#[test]
fn term_args() {
    fn facts(x: impl Into<Term>, y: impl Into<Term>, z: impl Into<Term>) -> Goal {
        let x = &x.into();
        let y = &y.into();
        let z = &z.into();

        all([cond([
            vec![eq(x, "male"), eq(y, "monarch"), eq(z, "king")],
            vec![eq(x, "female"), eq(y, "monarch"), eq(z, "queen")],
        ])])
    }

    assert_eq!(
        AsScheme(run_all(|q| fresh(move |x| all([
            facts("male", x, "king"),
            facts("female", x, q),
        ]))))
        .to_string(),
        "((queen))"
    );
}

#[test]
fn three_brothers() {
    fn brothers(name: Var, tells: Var) -> Goal {
        cond([
            [eq(name, "John"), eq(tells, "lies")],
            [eq(name, "James"), eq(tells, "lies")],
            [eq(name, "William"), eq(tells, "truth")],
        ])
    }

    fn is(a: Var, b: Var, answer: Var) -> Goal {
        cond([[eq(a, b), eq(answer, "yes")], [neq(a, b), eq(answer, "no")]])
    }

    fn says(tells: Var, result: Var, answer: Var) -> Goal {
        cond([
            [eq(tells, "truth"), eq(result, "yes"), eq(answer, "yes")],
            [eq(tells, "truth"), eq(result, "no"), eq(answer, "no")],
            [eq(tells, "lies"), eq(result, "yes"), eq(answer, "no")],
            [eq(tells, "lies"), eq(result, "no"), eq(answer, "yes")],
        ])
    }

    // Hardcoded question "Is your name ...?"
    // Query will find what name to ask, and what unique answer Johns will give.
    let result = run_all(|name, unique| {
        fresh(move |common| {
            all([
                neq(unique, common),
                fresh(move |your_name, tells, result| {
                    all([
                        eq(your_name, "John"),
                        brothers(your_name, tells),
                        is(your_name, name, result),
                        says(tells, result, unique),
                    ])
                }),
                fresh(move |your_name, tells, result| {
                    all([
                        eq(your_name, "James"),
                        brothers(your_name, tells),
                        is(your_name, name, result),
                        says(tells, result, common),
                    ])
                }),
                fresh(move |your_name, tells, result| {
                    all([
                        eq(your_name, "William"),
                        brothers(your_name, tells),
                        is(your_name, name, result),
                        says(tells, result, common),
                    ])
                }),
            ])
        })
    });

    assert_eq!(AsScheme(result).to_string(), "((James yes))");
}

#[test]
fn three_brothers_v2() {
    fn bounded(set: impl Into<Term>) -> Goal {
        let term_set: Term = set.into();
        fresh(move |var_set| {
            all([
                eq(&term_set, var_set),
                (|set: Var| {
                    fresh(move |head, tail| {
                        cond([
                            vec![eq(set, NULL)],
                            vec![eq(set, cons(head, tail)), jield(move || bounded(tail))],
                        ])
                    })
                })(var_set),
            ])
        })
    }

    fn contains(set: impl Into<Term>, x: impl Into<Term>) -> Goal {
        let term_set: Term = set.into();
        let term_x: Term = x.into();
        fresh(move |var_set, var_x| {
            all([
                eq(&term_set, var_set),
                eq(&term_x, var_x),
                (|set: Var, x: Var| {
                    fresh(move |head, tail| {
                        cond([
                            vec![eq(set, cons(head, tail)), eq(head, x), bounded(tail)],
                            vec![
                                eq(set, cons(head, tail)),
                                neq(head, x),
                                jield(move || contains(tail, x)),
                            ],
                        ])
                    })
                })(var_set, var_x),
            ])
        })
    }

    fn excludes(set: impl Into<Term>, x: impl Into<Term>) -> Goal {
        let term_set: Term = set.into();
        let term_x: Term = x.into();
        fresh(move |var_set, var_x| {
            all([
                eq(&term_set, var_set),
                eq(&term_x, var_x),
                (|set: Var, x: Var| {
                    fresh(move |head, tail| {
                        cond([
                            vec![eq(set, NULL)],
                            vec![
                                eq(set, cons(head, tail)),
                                neq(head, x),
                                jield(move || excludes(tail, x)),
                            ],
                        ])
                    })
                })(var_set, var_x),
            ])
        })
    }

    fn set_insert(set: impl Into<Term>, x: impl Into<Term>, result: impl Into<Term>) -> Goal {
        let term_set: Term = set.into();
        let term_x: Term = x.into();
        let term_result: Term = result.into();
        fresh(move |var_set, var_x, var_result| {
            all([
                eq(&term_set, var_set),
                eq(&term_x, var_x),
                eq(&term_result, var_result),
                (|set: Var, x: Var, result: Var| {
                    fresh(move |head, tail, c| {
                        cond([
                            vec![eq(set, NULL), eq(result, cons(x, NULL))],
                            vec![eq(set, cons(head, tail)), eq(head, x), eq(result, set)],
                            vec![
                                eq(set, cons(head, tail)),
                                neq(head, x),
                                eq(result, cons(head, c)),
                                jield(move || set_insert(tail, x, c)),
                            ],
                        ])
                    })
                })(var_set, var_x, var_result),
            ])
        })
    }

    fn not(a: Var, b: Var) -> Goal {
        cond([[eq(a, "yes"), eq(b, "no")], [eq(a, "no"), eq(b, "yes")]])
    }

    fn says(tells: impl Into<Term>, result: impl Into<Term>, answer: impl Into<Term>) -> Goal {
        let term_tells: Term = tells.into();
        let term_result: Term = result.into();
        let term_answer: Term = answer.into();
        fresh(move |var_tells, var_result, var_answer| {
            all([
                eq(&term_tells, var_tells),
                eq(&term_result, var_result),
                eq(&term_answer, var_answer),
                (|tells: Var, result: Var, answer: Var| {
                    cond([
                        [eq(tells, "truth"), eq(result, answer)],
                        [eq(tells, "lies"), not(result, answer)],
                    ])
                })(var_tells, var_result, var_answer),
            ])
        })
    }

    fn query(question: impl Into<Term>, facts: impl Into<Term>, result: impl Into<Term>) -> Goal {
        let term_question: Term = question.into();
        let term_facts: Term = facts.into();
        let term_result: Term = result.into();
        fresh(move |var_question, var_facts, var_result| {
            all([
                eq(&term_question, var_question),
                eq(&term_facts, var_facts),
                eq(&term_result, var_result),
                (|question: Var, facts: Var, result: Var| {
                    fresh(move |index, identifier, prop, value| {
                        all([
                            eq(question, list(vec![t(identifier), t(prop), t(value)])),
                            any([
                                contains(facts, list(vec![t(index), t("is"), t(identifier)])),
                                contains(facts, list(vec![t(index), t("named"), t(identifier)])),
                            ]),
                            cond([
                                [
                                    contains(facts, list(vec![t(index), t(prop), t(value)])),
                                    eq(result, "yes"),
                                ],
                                [
                                    excludes(facts, list(vec![t(index), t(prop), t(value)])),
                                    eq(result, "no"),
                                ],
                            ]),
                        ])
                    })
                })(var_question, var_facts, var_result),
            ])
        })
    }

    fn ask_question(index: impl Into<Term>, question: impl Into<Term>, answer: impl Into<Term>) -> Goal {
        let term_index: Term = index.into();
        let term_question: Term = question.into();
        let term_answer: Term = answer.into();
        fresh(move |var_index, var_question, var_answer| {
            all([
                eq(&term_index, var_index),
                eq(&term_question, var_question),
                eq(&term_answer, var_answer),
                (|index: Var, question: Var, answer: Var| {
                    fresh(move |result, facts, my_facts, tells| {
                        all([
                            get_facts(facts),
                            set_insert(facts, list(vec![t(index), t("is"), t("You")]), my_facts),
                            query(question, my_facts, result),
                            contains(facts, list(vec![t(index), t("tells"), t(tells)])),
                            says(tells, result, answer),
                        ])
                    })
                })(var_index, var_question, var_answer),
            ])
        })
    }

    fn get_facts(f: impl Into<Term>) -> Goal {
        let term_f: Term = f.into();
        fresh(move |var_f| {
            all([
                eq(&term_f, var_f),
                (|f: Var| {
                    eq(
                        f,
                        list(vec![
                            list(vec![t("obj#john"), t("named"), t("John")]),
                            list(vec![t("obj#john"), t("tells"), t("lies")]),
                            list(vec![t("obj#james"), t("named"), t("James")]),
                            list(vec![t("obj#james"), t("tells"), t("lies")]),
                            list(vec![t("obj#william"), t("named"), t("William")]),
                            list(vec![t("obj#william"), t("tells"), t("truth")]),
                        ]),
                    )
                })(var_f),
            ])
        })
    }

    // Find question and answer that would uniquely identify John
    let result = run_all(|question, answer_john| {
        fresh(move |answer_james, answer_william| {
            all([
                neq(answer_john, answer_james),
                neq(answer_john, answer_william),
                ask_question("obj#john", question, answer_john),
                ask_question("obj#james", question, answer_james),
                ask_question("obj#william", question, answer_william),
            ])
        })
    });

    assert_eq!(
        AsScheme(result).to_string(),
        "(((You named James) yes) ((James is You) yes))"
    );
}

#[test]
fn paradox() {
    fn eqv(a: Var, b: Var, result: Var) -> Goal {
        cond([
            [eq(a, b), eq(result, "true")],
            [neq(a, b), eq(result, "false")],
        ])
    }

    // This sentence is true
    // sentence = (sentence == true)
    let result =
        run_all(|sentence| fresh(move |x| all([eq(x, "true"), eqv(sentence, x, sentence)])));
    assert_eq!(AsScheme(result).to_string(), "((true) (false))");

    fn not(x: Var, y: Var) -> Goal {
        cond([
            [eq(x, "true"), eq(y, "false")],
            [eq(x, "false"), eq(y, "true")],
        ])
    }

    // This sentence is not true
    // sentence = !(sentence == true)
    let result = run_all(|sentence| {
        fresh(move |x, y| all([eq(x, "true"), eqv(sentence, x, y), not(y, sentence)]))
    });
    assert_eq!(AsScheme(result).to_string(), "()");

    // LP (Logic of Paradox)

    // logical equivalence or biconditional, <->
    fn lp_leq(a: Var, b: Var, result: Var) -> Goal {
        cond([
            vec![eq(a, "false"), eq(b, "false"), eq(result, "true")],
            vec![eq(a, "true"), eq(b, "true"), eq(result, "true")],
            vec![eq(a, "false"), eq(b, "true"), eq(result, "false")],
            vec![eq(a, "true"), eq(b, "false"), eq(result, "false")],
            vec![eq(a, "true"), eq(b, "undecided"), eq(result, "undecided")],
            vec![eq(a, "false"), eq(b, "undecided"), eq(result, "undecided")],
            vec![eq(a, "undecided"), eq(b, "true"), eq(result, "undecided")],
            vec![eq(a, "undecided"), eq(b, "false"), eq(result, "undecided")],
            vec![
                eq(a, "undecided"),
                eq(b, "undecided"),
                eq(result, "undecided"),
            ], // In other logics this can be true
        ])
    }

    fn lp_not(x: Var, y: Var) -> Goal {
        cond([
            [eq(x, "true"), eq(y, "false")],
            [eq(x, "undecided"), eq(y, "undecided")],
            [eq(x, "false"), eq(y, "true")],
        ])
    }

    // This sentence is not true
    // sentence = !(sentence <-> true)
    let result = run_all(|sentence| {
        fresh(move |x, y| all([eq(x, "true"), lp_leq(sentence, y, sentence), lp_not(y, x)]))
    });
    assert_eq!(AsScheme(result).to_string(), "((undecided))");
}

#[test]
fn goal_macro() {
    fn eqv(a: impl Into<Term>, b: impl Into<Term>, result: impl Into<Term>) -> Goal {
        let term_a: Term = a.into();
        let term_b: Term = b.into();
        let term_result: Term = result.into();
        fresh(move |var_a, var_b, var_result| {
            all([
                eq(&term_a, var_a),
                eq(&term_b, var_b),
                eq(&term_result, var_result),
                (|a: Var, b: Var, result: Var| {
                    cond([
                        [eq(a, b), eq(result, "true")],
                        [neq(a, b), eq(result, "false")],
                    ])
                })(var_a, var_b, var_result),
            ])
        })
    }

    let result = run_all(|a, b, c| {
        fresh(move |_| all([eqv("Hello", 42, a), eqv(a, "false", b), eqv(b, "true", c)]))
    });
    assert_eq!(AsScheme(result).to_string(), "((false true true))");
}

#[test]
fn interpeter() {
    // quote, atom, eq, car, cdr, cons and cond

    fn eval(expr: impl Into<Term>, result: impl Into<Term>) -> Goal {
        let term_expr: Term = expr.into();
        let term_result: Term = result.into();
        fresh(move |var_expr, var_result| {
            all([
                eq(&term_expr, var_expr),
                eq(&term_result, var_result),
                (|expr: Var, result: Var| {
                    cond([
                        vec![eq(expr, 1), eq(result, 1)],
                        vec![eq(expr, 2), eq(result, 2)],
                        vec![eq(expr, 3), eq(result, 3)],
                        vec![eq(expr, list(vec![t("quote"), t(result)]))],
                        vec![eq(expr, "nil"), eq(result, NULL)],
                        vec![eq(expr, NULL), eq(result, NULL)],
                        vec![fresh(move |list_, unused, list_eval| {
                            all([
                                eq(expr, list(vec![t("first"), t(list_)])),
                                eq(list_eval, cons(result, unused)),
                                jield(move || eval(list_, list_eval)),
                            ])
                        })],
                        vec![fresh(move |list_, unused, list_eval| {
                            all([
                                eq(expr, list(vec![t("rest"), t(list_)])),
                                eq(list_eval, cons(unused, result)),
                                jield(move || eval(list_, list_eval)),
                            ])
                        })],
                        vec![fresh(move |a, b, a_eval, b_eval| {
                            all([
                                eq(expr, list(vec![t("cons"), t(a), t(b)])),
                                eq(result, cons(a_eval, b_eval)),
                                jield(move || eval(a, a_eval)),
                                jield(move || eval(b, b_eval)),
                            ])
                        })],
                        vec![fresh(move |e, ee| {
                            all([
                                eq(expr, list(vec![t("eval"), t(e)])),
                                jield(move || eval(e, ee)),
                                jield(move || eval(ee, result)),
                            ])
                        })],
                    ])
                })(var_expr, var_result),
            ])
        })
    }

    let result = run(10, |result| {
        eval(
            list(vec![
                t("cons"),
                t(1),
                list(vec![t("cons"), t(2), list(vec![t("cons"), t(3), t("nil")])]),
            ]),
            result,
        )
    });
    assert_eq!(AsScheme(result).to_string(), "(((1 2 3)))");

    let result = run(10, |result| eval(list(vec![t("quote"), list(vec![])]), result));
    assert_eq!(AsScheme(result).to_string(), "((()))");

    let result = run(10, |result| eval("nil", result));
    assert_eq!(AsScheme(result).to_string(), "((()))");

    let result = run(10, |result| {
        eval(list(vec![t("quote"), list(vec![t("cons"), t(1), t(2)])]), result)
    });
    assert_eq!(AsScheme(result).to_string(), "(((cons 1 2)))");

    let result = run(10, |result| {
        eval(
            list(vec![t("eval"), list(vec![t("quote"), list(vec![t("cons"), t(1), t(2)])])]),
            result,
        )
    });
    assert_eq!(AsScheme(result).to_string(), "(((1 . 2)))");

    let result = run(10, |expr| eval(expr, list(vec![t(1), t(2), t(3)])));
    println!("{}", AsScheme(result).to_string());

    let result = run(3, |r| eval(r, r));
    println!("{}", AsScheme(result).to_string());
}

#[test]
fn json_de_ser() {
    fn member(str: impl Into<Term>, rem: impl Into<Term>, expr: impl Into<Term>) -> Goal {
        let term_str: Term = str.into();
        let term_rem: Term = rem.into();
        let term_expr: Term = expr.into();
        fresh(move |var_str, var_rem, var_expr| {
            all([
                eq(&term_str, var_str),
                eq(&term_rem, var_rem),
                eq(&term_expr, var_expr),
                (|str: Var, rem: Var, expr: Var| {
                    fresh(move |key, value, e| {
                        all([
                            eq(str, cons(key, cons(":", e))),
                            eq(expr, cons(key, value)),
                            element(e, rem, value),
                        ])
                    })
                })(var_str, var_rem, var_expr),
            ])
        })
    }

    fn members(str: impl Into<Term>, rem: impl Into<Term>, expr: impl Into<Term>) -> Goal {
        let term_str: Term = str.into();
        let term_rem: Term = rem.into();
        let term_expr: Term = expr.into();
        fresh(move |var_str, var_rem, var_expr| {
            all([
                eq(&term_str, var_str),
                eq(&term_rem, var_rem),
                eq(&term_expr, var_expr),
                (|str: Var, rem: Var, expr: Var| {
                    cond([
                        vec![fresh(move |e| {
                            all([member(str, rem, e), eq(expr, list(vec![t(e)]))])
                        })],
                        vec![fresh(move |e, es, comma, ms| {
                            all([
                                eq(comma, cons(",", ms)),
                                eq(expr, cons(e, es)),
                                member(str, comma, e),
                                jield(move || members(ms, rem, es)),
                            ])
                        })],
                    ])
                })(var_str, var_rem, var_expr),
            ])
        })
    }

    fn object(str: impl Into<Term>, rem: impl Into<Term>, expr: impl Into<Term>) -> Goal {
        let term_str: Term = str.into();
        let term_rem: Term = rem.into();
        let term_expr: Term = expr.into();
        fresh(move |var_str, var_rem, var_expr| {
            all([
                eq(&term_str, var_str),
                eq(&term_rem, var_rem),
                eq(&term_expr, var_expr),
                (|str: Var, rem: Var, expr: Var| {
                    cond([
                        vec![fresh(move |tail, close| {
                            all([
                                eq(str, cons("{", tail)),
                                eq(close, cons("}", rem)),
                                members(tail, close, expr),
                            ])
                        })],
                        vec![eq(str, cons("{", cons("}", rem))), eq(expr, NULL)],
                    ])
                })(var_str, var_rem, var_expr),
            ])
        })
    }

    fn value(str: impl Into<Term>, rem: impl Into<Term>, expr: impl Into<Term>) -> Goal {
        let term_str: Term = str.into();
        let term_rem: Term = rem.into();
        let term_expr: Term = expr.into();
        fresh(move |var_str, var_rem, var_expr| {
            all([
                eq(&term_str, var_str),
                eq(&term_rem, var_rem),
                eq(&term_expr, var_expr),
                (|str: Var, rem: Var, expr: Var| {
                    cond([
                        vec![eq(str, cons("false", rem)), eq(expr, "#f")],
                        vec![eq(str, cons("true", rem)), eq(expr, "#t")],
                        vec![eq(str, cons(expr, rem)), eq(expr, "bye")],
                        vec![eq(str, cons(expr, rem)), eq(expr, "world")],
                        vec![eq(str, cons(expr, rem)), eq(expr, "night")],
                        vec![jield(move || object(str, rem, expr))],
                        vec![jield(move || array(str, rem, expr))],
                    ])
                })(var_str, var_rem, var_expr),
            ])
        })
    }

    fn element(str: impl Into<Term>, rem: impl Into<Term>, expr: impl Into<Term>) -> Goal {
        let term_str: Term = str.into();
        let term_rem: Term = rem.into();
        let term_expr: Term = expr.into();
        fresh(move |var_str, var_rem, var_expr| {
            all([
                eq(&term_str, var_str),
                eq(&term_rem, var_rem),
                eq(&term_expr, var_expr),
                (|str: Var, rem: Var, expr: Var| value(str, rem, expr))(var_str, var_rem, var_expr),
            ])
        })
    }

    fn elements(str: impl Into<Term>, rem: impl Into<Term>, expr: impl Into<Term>) -> Goal {
        let term_str: Term = str.into();
        let term_rem: Term = rem.into();
        let term_expr: Term = expr.into();
        fresh(move |var_str, var_rem, var_expr| {
            all([
                eq(&term_str, var_str),
                eq(&term_rem, var_rem),
                eq(&term_expr, var_expr),
                (|str: Var, rem: Var, expr: Var| {
                    cond([
                        vec![fresh(move |e| {
                            all([eq(expr, list(vec![t(e)])), element(str, rem, e)])
                        })],
                        vec![fresh(move |e, es, comma, ms| {
                            all([
                                eq(comma, cons(",", ms)),
                                eq(expr, cons(e, es)),
                                element(str, comma, e),
                                jield(move || elements(ms, rem, es)),
                            ])
                        })],
                    ])
                })(var_str, var_rem, var_expr),
            ])
        })
    }

    fn array(str: impl Into<Term>, rem: impl Into<Term>, expr: impl Into<Term>) -> Goal {
        let term_str: Term = str.into();
        let term_rem: Term = rem.into();
        let term_expr: Term = expr.into();
        fresh(move |var_str, var_rem, var_expr| {
            all([
                eq(&term_str, var_str),
                eq(&term_rem, var_rem),
                eq(&term_expr, var_expr),
                (|str: Var, rem: Var, expr: Var| {
                    cond([
                        vec![fresh(move |tail, close| {
                            all([
                                eq(str, cons("[", tail)),
                                eq(close, cons("]", rem)),
                                elements(tail, close, expr),
                            ])
                        })],
                        vec![eq(str, cons("[", cons("]", rem))), eq(expr, NULL)],
                    ])
                })(var_str, var_rem, var_expr),
            ])
        })
    }

    fn json(str: impl Into<Term>, expr: impl Into<Term>) -> Goal {
        let term_str: Term = str.into();
        let term_expr: Term = expr.into();
        fresh(move |var_str, var_expr| {
            all([
                eq(&term_str, var_str),
                eq(&term_expr, var_expr),
                (|str: Var, expr: Var| element(str, NULL, expr))(var_str, var_expr),
            ])
        })
    }

    let result = run(1, |expr| json(list(vec![t("{"), t("}")]), expr));
    println!("{}", AsScheme(result).to_string());

    let result = run(1, |expr| {
        json(list(vec![t("{"), t("hello"), t(":"), t("world"), t("}")]), expr)
    });
    println!("{}", AsScheme(result).to_string());

    let result = run(1, |expr| json(expr, list(vec![cons("bye", "bye")])));
    println!("{}", AsScheme(result).to_string());

    let result = run(1, |expr| {
        json(
            list(vec![
                t("{"),
                t("hello"),
                t(":"),
                t("world"),
                t(","),
                t("good"),
                t(":"),
                t("night"),
                t("}"),
            ]),
            expr,
        )
    });
    println!("{}", AsScheme(result).to_string());

    let result = run(100, |str, expr| json(str, expr));
    println!("{}", AsScheme(result).to_string());
}

fn list_contains(list: impl Into<Term>, x: impl Into<Term>) -> Goal {
    let term_list: Term = list.into();
    let term_x: Term = x.into();
    fresh(move |var_list, var_x| {
        all([
            eq(&term_list, var_list),
            eq(&term_x, var_x),
            (|list: Var, x: Var| {
                fresh(move |head, tail| {
                    cond([
                        vec![eq(list, cons(head, tail)), eq(head, x)],
                        vec![eq(list, cons(head, tail)), jield(move || list_contains(tail, x))],
                    ])
                })
            })(var_list, var_x),
        ])
    })
}

#[test]
fn depth() {
    let mut q = query(move |x| cond([[list_contains(list(vec![t(1), t(2), t(3)]), x)]]));

    assert_eq!(q.next().map(|s| s.depth), Some(0));
    assert_eq!(q.next().map(|s| s.depth), Some(1));
    assert_eq!(q.next().map(|s| s.depth), Some(2));
    assert_eq!(q.next().map(|s| s.depth), None);
}

#[test]
fn tree() {
    let mut q = query(move |x, y| {
        cond([
            vec![any([eq(y, 1), eq(y, 2)]), list_contains(list(vec![t(1), t(2)]), x)],
            vec![list_contains(list(vec![t(3), t(4)]), x)],
        ])
    });

    println!("{} {}", q.stream.mature.len(), q.stream.immature.len());

    println!("{}", q.engine.nodes.len());
    println!("{:?}", q.next().map(|s| s.depth));
    println!("{:?}", q.next().map(|s| s.depth));
    println!("{:?}", q.next().map(|s| s.depth));
    println!("{:?}", q.next().map(|s| s.depth));
    println!("{:?}", q.next().map(|s| s.depth));
    println!("{:?}", q.next().map(|s| s.depth));
    println!("{:?}", q.next().map(|s| s.depth));

    println!("{}", q.engine.nodes.len());

    println!("{}", q.engine.next_var);
}
