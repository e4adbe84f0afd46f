//! How two finite sets, held as vectors, stand to each other.
use vstd::prelude::*;
use vstd::std_specs::cmp::PartialEqSpec;

verus! {

/// What the first set is relative to the second.
#[derive(Debug, Clone, Copy, PartialEq, Eq, Structural)]
pub enum Relation {
    Subset,
    Equal,
    Superset,
    Joint,
    Disjoint,
}

/// Whether `x` is an element of `s`, by the element type's `==`.
pub open spec fn member<T: PartialEq>(s: Seq<T>, x: T) -> bool {
    exists|i: int| 0 <= i < s.len() && s[i].eq_spec(&x)
}

/// Every element of `a` is in `b`.
pub open spec fn within<T: PartialEq>(a: Seq<T>, b: Seq<T>) -> bool {
    forall|i: int| 0 <= i < a.len() ==> member(b, #[trigger] a[i])
}

/// Some element of `a` is in `b`.
pub open spec fn meets<T: PartialEq>(a: Seq<T>, b: Seq<T>) -> bool {
    exists|i: int| 0 <= i < a.len() && member(b, #[trigger] a[i])
}

pub open spec fn relation_of<T: PartialEq>(a: Seq<T>, b: Seq<T>) -> Relation {
    if within(a, b) && within(b, a) {
        Relation::Equal
    } else if within(a, b) {
        Relation::Subset
    } else if within(b, a) {
        Relation::Superset
    } else if meets(a, b) {
        Relation::Joint
    } else {
        Relation::Disjoint
    }
}

/// Whether `x` is an element of `s`.
pub fn contains<T: PartialEq>(s: &Vec<T>, x: &T) -> (r: bool)
    requires
        T::obeys_eq_spec(),
    ensures
        r == member(s@, *x),
{
    let mut i: usize = 0;
    while i < s.len()
        invariant
            0 <= i <= s.len(),
            T::obeys_eq_spec(),
            forall|j: int| 0 <= j < i ==> !(#[trigger] s@[j]).eq_spec(x),
        decreases s.len() - i,
    {
        if s[i].eq(x) {
            return true;
        }
        i = i + 1;
    }
    false
}

fn all_in<T: PartialEq>(a: &Vec<T>, b: &Vec<T>) -> (r: bool)
    requires
        T::obeys_eq_spec(),
    ensures
        r == within(a@, b@),
{
    let mut i: usize = 0;
    while i < a.len()
        invariant
            0 <= i <= a.len(),
            T::obeys_eq_spec(),
            forall|j: int| 0 <= j < i ==> member(b@, #[trigger] a@[j]),
        decreases a.len() - i,
    {
        if !contains(b, &a[i]) {
            return false;
        }
        i = i + 1;
    }
    true
}

fn any_in<T: PartialEq>(a: &Vec<T>, b: &Vec<T>) -> (r: bool)
    requires
        T::obeys_eq_spec(),
    ensures
        r == meets(a@, b@),
{
    let mut i: usize = 0;
    while i < a.len()
        invariant
            0 <= i <= a.len(),
            T::obeys_eq_spec(),
            forall|j: int| 0 <= j < i ==> !member(b@, #[trigger] a@[j]),
        decreases a.len() - i,
    {
        if contains(b, &a[i]) {
            return true;
        }
        i = i + 1;
    }
    false
}

/// The relation of set `a` to set `b`.
pub fn relation<T: PartialEq>(a: &Vec<T>, b: &Vec<T>) -> (r: Relation)
    requires
        T::obeys_eq_spec(),
    ensures
        r == relation_of(a@, b@),
{
    let ab = all_in(a, b);
    let ba = all_in(b, a);
    if ab && ba {
        Relation::Equal
    } else if ab {
        Relation::Subset
    } else if ba {
        Relation::Superset
    } else if any_in(a, b) {
        Relation::Joint
    } else {
        Relation::Disjoint
    }
}

} // verus!
