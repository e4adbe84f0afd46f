//! Terms: atoms, type sentinels, typed logic variables and pairs.
use vstd::prelude::*;

verus! {

/// A logic variable, identified by the number the query gave it.
#[derive(Debug, Clone, Copy, Hash, Eq, PartialOrd, Ord)]
pub struct Var(pub u32);

impl PartialEq for Var {
    fn eq(&self, o: &Var) -> (r: bool)
        ensures
            r == (self.0 == o.0),
    {
        self.0 == o.0
    }
}

impl vstd::std_specs::cmp::PartialEqSpecImpl for Var {
    open spec fn obeys_eq_spec() -> bool {
        true
    }

    open spec fn eq_spec(&self, o: &Var) -> bool {
        self.0 == o.0
    }
}

/// The type bound of a variable, and the domain a sentinel stands for.
/// `Any` is the top; `Number` and `String` are incomparable below it.
#[derive(Debug, Clone, Copy, Hash, PartialEq, Eq, Structural, PartialOrd, Ord)]
pub enum TermType {
    Any,
    Number,
    String,
}

#[derive(Debug, Hash, Eq, PartialOrd, Ord)]
pub enum Term {
    /// A type sentinel: unifies with any atom of its domain.
    Type(TermType),
    Value(i32),
    String(String),
    /// A logic variable with its type bound.
    Var(Var, TermType),
    Cons(Box<Term>, Box<Term>),
    /// The empty list.
    Null,
}

/// Structural equality, with strings compared by their characters.
pub open spec fn same(a: Term, b: Term) -> bool
    decreases a,
{
    match (a, b) {
        (Term::Type(x), Term::Type(y)) => x == y,
        (Term::Value(x), Term::Value(y)) => x == y,
        (Term::String(x), Term::String(y)) => x@ == y@,
        (Term::Var(v, s), Term::Var(w, t)) => v == w && s == t,
        (Term::Cons(h1, t1), Term::Cons(h2, t2)) => same(*h1, *h2) && same(*t1, *t2),
        (Term::Null, Term::Null) => true,
        _ => false,
    }
}

impl Clone for Term {
    fn clone(&self) -> (r: Term)
        ensures
            r == *self,
        decreases self,
    {
        match self {
            Term::Type(t) => Term::Type(*t),
            Term::Value(i) => Term::Value(*i),
            Term::String(s) => Term::String(s.clone()),
            Term::Var(v, t) => Term::Var(*v, *t),
            Term::Cons(h, t) => Term::Cons(Box::new((**h).clone()), Box::new((**t).clone())),
            Term::Null => Term::Null,
        }
    }
}

impl PartialEq for Term {
    fn eq(&self, o: &Term) -> (r: bool)
        ensures
            r == same(*self, *o),
        decreases self,
    {
        match (self, o) {
            (Term::Type(x), Term::Type(y)) => *x == *y,
            (Term::Value(x), Term::Value(y)) => *x == *y,
            (Term::String(x), Term::String(y)) => *x == *y,
            (Term::Var(v, s), Term::Var(w, t)) => v.0 == w.0 && *s == *t,
            (Term::Cons(h1, t1), Term::Cons(h2, t2)) => (**h1).eq(&**h2) && (**t1).eq(&**t2),
            (Term::Null, Term::Null) => true,
            _ => false,
        }
    }
}

impl vstd::std_specs::cmp::PartialEqSpecImpl for Term {
    open spec fn obeys_eq_spec() -> bool {
        true
    }

    open spec fn eq_spec(&self, o: &Term) -> bool {
        same(*self, *o)
    }
}

impl Term {
    /// The elements of a proper list, or `None` when the term is not one.
    pub fn to_vec(&self) -> (r: Option<Vec<Term>>)
        ensures
            r matches Some(v) ==> list_items(*self) == Some(v@),
            r is None ==> list_items(*self) is None,
        decreases self,
    {
        match self {
            Term::Null => Some(Vec::new()),
            Term::Cons(h, t) => {
                match (**t).to_vec() {
                    Some(rest) => {
                        let mut v: Vec<Term> = Vec::new();
                        v.push((**h).clone());
                        let mut i: usize = 0;
                        while i < rest.len()
                            invariant
                                0 <= i <= rest.len(),
                                v@ == seq![**h] + rest@.subrange(0, i as int),
                            decreases rest.len() - i,
                        {
                            v.push(rest[i].clone());
                            i = i + 1;
                            assert(v@ =~= seq![**h] + rest@.subrange(0, i as int));
                        }
                        assert(rest@.subrange(0, rest.len() as int) =~= rest@);
                        Some(v)
                    },
                    None => None,
                }
            },
            _ => None,
        }
    }
}

/// The elements of a proper list (`Null`-terminated chain of pairs).
pub open spec fn list_items(t: Term) -> Option<Seq<Term>>
    decreases t,
{
    match t {
        Term::Null => Some(Seq::empty()),
        Term::Cons(h, tl) => match list_items(*tl) {
            Some(s) => Some(seq![*h] + s),
            None => None,
        },
        _ => None,
    }
}

/// Builds the pair `(a . b)`.
pub fn cons(a: Term, b: Term) -> (r: Term)
    ensures
        r == Term::Cons(Box::new(a), Box::new(b)),
{
    Term::Cons(Box::new(a), Box::new(b))
}

/// The list `(x1 ... xn . tail)`: the items in order, then `tail` as the
/// final second component.
pub open spec fn list_spec(items: Seq<Term>, tail: Term) -> Term
    decreases items.len(),
{
    if items.len() == 0 {
        tail
    } else {
        Term::Cons(Box::new(items[0]), Box::new(list_spec(items.drop_first(), tail)))
    }
}

/// Builds `(x1 ... xn . tail)`: see [`list_spec`].
pub fn list_dot(items: Vec<Term>, tail: Term) -> (r: Term)
    ensures
        r == list_spec(items@, tail),
{
    let ghost all = items@;
    let mut items = items;
    let mut acc = tail;
    assert(all.subrange(all.len() as int, all.len() as int) =~= Seq::<Term>::empty());
    while items.len() > 0
        invariant
            items@ == all.subrange(0, items.len() as int),
            items.len() <= all.len(),
            acc == list_spec(all.subrange(items.len() as int, all.len() as int), tail),
        decreases items.len(),
    {
        let x = items.pop().unwrap();
        let ghost k = items.len() as int;
        assert(all.subrange(k, all.len() as int).drop_first() =~= all.subrange(k + 1, all.len() as int));
        acc = Term::Cons(Box::new(x), Box::new(acc));
    }
    assert(all.subrange(0, all.len() as int) =~= all);
    acc
}

/// Builds the proper list of `items`.
pub fn list(items: Vec<Term>) -> (r: Term)
    ensures
        r == list_spec(items@, Term::Null),
{
    list_dot(items, Term::Null)
}

/// The empty list.
pub const NULL: Term = Term::Null;

impl From<i32> for Term {
    fn from(i: i32) -> (r: Term) {
        Term::Value(i)
    }
}

impl vstd::std_specs::convert::FromSpecImpl<i32> for Term {
    open spec fn obeys_from_spec() -> bool {
        true
    }

    open spec fn from_spec(i: i32) -> Term {
        Term::Value(i)
    }
}

impl From<Var> for Term {
    fn from(v: Var) -> (r: Term) {
        Term::Var(v, TermType::Any)
    }
}

impl vstd::std_specs::convert::FromSpecImpl<Var> for Term {
    open spec fn obeys_from_spec() -> bool {
        true
    }

    open spec fn from_spec(v: Var) -> Term {
        Term::Var(v, TermType::Any)
    }
}

impl From<String> for Term {
    fn from(s: String) -> (r: Term) {
        Term::String(s)
    }
}

impl vstd::std_specs::convert::FromSpecImpl<String> for Term {
    open spec fn obeys_from_spec() -> bool {
        true
    }

    open spec fn from_spec(s: String) -> Term {
        Term::String(s)
    }
}

impl From<&str> for Term {
    fn from(s: &str) -> (r: Term)
        ensures
            r matches Term::String(x) && x@ == s@,
    {
        Term::String(s.to_owned())
    }
}

impl vstd::std_specs::convert::FromSpecImpl<&str> for Term {
    /// A `String` value cannot be built in a specification; what `from`
    /// returns is stated on `from` itself, by the string's characters.
    open spec fn obeys_from_spec() -> bool {
        false
    }

    open spec fn from_spec(s: &str) -> Term {
        Term::Null
    }
}

impl From<&String> for Term {
    fn from(s: &String) -> (r: Term) {
        Term::String(s.clone())
    }
}

impl vstd::std_specs::convert::FromSpecImpl<&String> for Term {
    open spec fn obeys_from_spec() -> bool {
        true
    }

    open spec fn from_spec(s: &String) -> Term {
        Term::String(*s)
    }
}

impl From<&Term> for Term {
    fn from(t: &Term) -> (r: Term) {
        t.clone()
    }
}

impl vstd::std_specs::convert::FromSpecImpl<&Term> for Term {
    open spec fn obeys_from_spec() -> bool {
        true
    }

    open spec fn from_spec(t: &Term) -> Term {
        *t
    }
}

} // verus!
