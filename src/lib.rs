//! A miniKanren-style relational engine: terms with typed logic variables,
//! unification, disequality constraints kept minimal, an interleaving
//! search over lazily built goal trees, and the projection of each answer
//! onto the query variables.
//!
//! Goal trees are generic over a [`goal::Binding`]: the body of a `Fresh`
//! or `Yield` goal is whatever the caller's binding type builds when it is
//! first used, and [`goal::Binding::body`] names it in specifications. The
//! search and the query driver are specified exactly over those bodies
//! ([`search::call_s`], [`query::next_s`], [`query::take_s`]). The search interns goals into an arena
//! ([`search::Engine`]), resolves each deferred node once, and represents a
//! suspended branch as data (a goal, a state and the goals still to be
//! bound over its stream) rather than as a closure.
//!
//! A variable is only ever bound to a smaller variable, so following
//! bindings always ends. Deep walking and unification descend into pairs at
//! most [`subst::DEPTH`] levels; that bound is beyond any term that fits in
//! memory and only matters for a substitution that loops through a pair,
//! which clients must not build (there is no occurs check).
use vstd::prelude::*;

pub mod term;
pub mod subst;
pub mod unify;
pub mod set;
pub mod constraint;
pub mod goal;
pub mod state;
pub mod search;
pub mod order;
pub mod query;
pub mod project;
pub mod display;
pub mod laws;

verus! {

} // verus!
