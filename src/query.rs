//! The query driver: the pull scheduler over a root stream, and answers.
use vstd::prelude::*;
use crate::term::{Term, Var};
use crate::goal::Binding;
use crate::state::State;
use crate::search::{reversed, Engine, Stream, Suspension, Node, EngV, StV, SuspV, StreamV, eng_v, stream_v, susp_v, st, empty_v, append_v, resume_s, intern_s, call_s, numbered};
use crate::subst::DEPTH;

verus! {

/// The most pulls one call of [`Query::next`] makes while looking for an
/// answer before it gives up and marks the query stalled.
pub const STEPS: u64 = 0xffff_ffff_ffff_ffff;

/// A running query over `arity` query variables, numbered from 0. When
/// the counter cannot number a goal's fresh variables, `engine.overflow` is
/// set and that branch gives no answers.
pub struct Query<B> {
    pub engine: Engine<B>,
    /// The arena index of the root goal.
    pub goal: usize,
    pub arity: usize,
    /// The stream whose states and suspensions are waiting to be taken.
    pub stream: Stream,
    /// The batch of states being handed out, last first.
    pub mature_iter: Vec<State>,
    /// The batch of suspensions being resumed, last first.
    pub immature_iter: Vec<Suspension>,
    /// Set when [`Query::next`] spent its pulls without finding an answer.
    pub stalled: bool,
}

/// A query as a value: its engine and stream, the batch of states being
/// handed out (last first), the batch of suspensions being resumed (last
/// first), and whether it stalled.
pub struct QueryView<B> {
    pub eng: EngV<B>,
    pub stream: StreamV,
    pub batch: Seq<StV>,
    pub waiting: Seq<SuspV>,
    pub stalled: bool,
}

pub open spec fn query_v<B>(q: Query<B>) -> QueryView<B> {
    QueryView {
        eng: eng_v(q.engine),
        stream: stream_v(q.stream),
        batch: q.mature_iter@.map_values(|x: State| st(x)),
        waiting: q.immature_iter@.map_values(|x: Suspension| susp_v(x)),
        stalled: q.stalled,
    }
}

/// Nothing is left to pull.
pub open spec fn exhausted<B>(q: Query<B>) -> bool {
    &&& q.mature_iter@.len() == 0
    &&& q.stream.mature@.len() == 0
    &&& q.immature_iter@.len() == 0
    &&& q.stream.immature@.len() == 0
}

/// One step of the scheduler: hand out the next state of the batch; else
/// make the stream's states the batch; else resume the next waiting
/// suspension and append its stream; else make the stream's suspensions
/// the waiting batch; else nothing is left (`None`).
pub open spec fn pull_s<B: Binding>(q: QueryView<B>) -> (QueryView<B>, Option<Option<StV>>) {
    if q.batch.len() > 0 {
        (QueryView { batch: q.batch.drop_last(), ..q }, Some(Some(q.batch.last())))
    } else if q.stream.0.len() > 0 {
        (
            QueryView { batch: q.stream.0.reverse(), stream: (Seq::empty(), q.stream.1), ..q },
            Some(None),
        )
    } else if q.waiting.len() > 0 {
        let (e2, sv) = resume_s(q.eng, q.waiting.last(), DEPTH as nat);
        (
            QueryView {
                eng: e2,
                waiting: q.waiting.drop_last(),
                stream: append_v(q.stream, sv),
                ..q
            },
            Some(None),
        )
    } else if q.stream.1.len() > 0 {
        (
            QueryView { waiting: q.stream.1.reverse(), stream: (q.stream.0, Seq::empty()), ..q },
            Some(None),
        )
    } else {
        (q, None)
    }
}

/// Pulling until a state is handed out, at most `budget` times; the query
/// is marked stalled when the budget runs out.
pub open spec fn next_loop<B: Binding>(q: QueryView<B>, budget: nat) -> (QueryView<B>, Option<StV>)
    decreases budget,
{
    if budget == 0 {
        (QueryView { stalled: true, ..q }, None)
    } else {
        let (q2, r) = pull_s(q);
        match r {
            None => (q2, None),
            Some(Some(x)) => (q2, Some(x)),
            Some(None) => next_loop(q2, (budget - 1) as nat),
        }
    }
}

/// The next answer: see [`Query::next`].
pub open spec fn next_s<B: Binding>(q: QueryView<B>) -> (QueryView<B>, Option<StV>) {
    if q.batch.len() > 0 {
        (QueryView { batch: q.batch.drop_last(), ..q }, Some(q.batch.last()))
    } else {
        next_loop(q, STEPS as nat)
    }
}

/// The next `n` answers, fewer when there are no more.
pub open spec fn take_s<B: Binding>(q: QueryView<B>, n: nat) -> (QueryView<B>, Seq<StV>)
    decreases n,
{
    if n == 0 {
        (q, Seq::empty())
    } else {
        let (q2, r) = next_s(q);
        match r {
            None => (q2, Seq::empty()),
            Some(x) => {
                let (q3, rest) = take_s(q2, (n - 1) as nat);
                (q3, seq![x] + rest)
            },
        }
    }
}

/// Every further answer, taking at most `budget` of them.
pub open spec fn take_all_s<B: Binding>(q: QueryView<B>, budget: nat) -> (QueryView<B>, Seq<StV>)
    decreases budget,
{
    if budget == 0 {
        (QueryView { stalled: true, ..q }, Seq::empty())
    } else {
        let (q2, r) = next_s(q);
        match r {
            None => (q2, Seq::empty()),
            Some(x) => {
                let (q3, rest) = take_all_s(q2, (budget - 1) as nat);
                (q3, seq![x] + rest)
            },
        }
    }
}

/// The query for `f`: its `wanted()` variables numbered from 0, the body
/// built over them interned, and run on the empty state. When the variables
/// cannot be numbered the overflow flag is set and there are no answers.
pub open spec fn query_s<B: Binding>(f: B) -> QueryView<B> {
    let k = f.wanted();
    if k > u32::MAX {
        QueryView {
            eng: (Seq::empty(), 0u32, true),
            stream: empty_v(),
            batch: Seq::empty(),
            waiting: Seq::empty(),
            stalled: false,
        }
    } else {
        let (nodes, g) = intern_s(Seq::<Node<B>>::empty(), f.body(numbered(0, k)));
        let (e2, sv) = call_s(
            (nodes, k as u32, false),
            g,
            ((Seq::empty(), Seq::empty()), 0u32),
            DEPTH as nat,
        );
        QueryView { eng: e2, stream: sv, batch: Seq::empty(), waiting: Seq::empty(), stalled: false }
    }
}

/// The states of the answers.
pub open spec fn answers_v(r: Seq<StateN>) -> Seq<StV> {
    r.map_values(|a: StateN| st(a.state))
}

impl<B: Binding> Query<B> {
    /// One step of the scheduler: see [`pull_s`].
    pub fn pull(&mut self) -> (r: Option<Option<State>>)
        ensures
            final(self).arity == old(self).arity,
            final(self).goal == old(self).goal,
            (query_v(*final(self)), match r {
                None => None,
                Some(None) => Some(None),
                Some(Some(s)) => Some(Some(st(s))),
            }) == pull_s(query_v(*old(self))),
            r is None <==> exhausted(*old(self)),
    {
        let ghost q0 = query_v(*self);
        if self.mature_iter.len() > 0 {
            let r = self.mature_iter.pop();
            assert(query_v(*self).batch =~= q0.batch.drop_last());
            return Some(r);
        } else if self.stream.mature.len() > 0 {
            let mut batch: Vec<State> = Vec::new();
            std::mem::swap(&mut batch, &mut self.stream.mature);
            let ghost b = batch@;
            self.mature_iter = reversed(batch);
            assert(query_v(*self).batch =~= q0.stream.0.reverse());
            assert(query_v(*self).stream.0 =~= Seq::<StV>::empty());
        } else if self.immature_iter.len() > 0 {
            let cont = self.immature_iter.pop().unwrap();
            assert(susp_v(cont) == q0.waiting.last());
            let s = self.engine.resume(cont, DEPTH);
            let ghost sv = stream_v(s);
            let ghost before = stream_v(self.stream);
            self.stream.append(s);
            assert(query_v(*self).waiting =~= q0.waiting.drop_last());
            assert(stream_v(self.stream) =~= append_v(before, sv));
        } else if self.stream.immature.len() > 0 {
            let mut batch: Vec<Suspension> = Vec::new();
            std::mem::swap(&mut batch, &mut self.stream.immature);
            self.immature_iter = reversed(batch);
            assert(query_v(*self).waiting =~= q0.stream.1.reverse());
            assert(query_v(*self).stream.1 =~= Seq::<SuspV>::empty());
        } else {
            return None;
        }
        Some(None)
    }

    /// The next answer: pulls until a state is handed out; see
    /// [`next_s`]. `None` when the search is exhausted, or when [`STEPS`]
    /// pulls found nothing (the query is then marked stalled).
    pub fn next(&mut self) -> (r: Option<State>)
        ensures
            final(self).arity == old(self).arity,
            final(self).goal == old(self).goal,
            (query_v(*final(self)), match r {
                None => None,
                Some(s) => Some(st(s)),
            }) == next_s(query_v(*old(self))),
            r is None ==> exhausted(*final(self)) || final(self).stalled,
            exhausted(*old(self)) ==> r is None && exhausted(*final(self)),
    {
        let ghost q0 = query_v(*self);
        if self.mature_iter.len() > 0 {
            let r = self.mature_iter.pop();
            assert(query_v(*self).batch =~= q0.batch.drop_last());
            return r;
        }
        let mut budget: u64 = STEPS;
        while budget > 0
            invariant
                self.arity == old(self).arity,
                self.goal == old(self).goal,
                next_s(q0) == next_loop(query_v(*self), budget as nat),
                q0 == query_v(*old(self)),
                q0.batch.len() == 0,
                exhausted(*old(self)) ==> exhausted(*self),
            decreases budget,
        {
            match self.pull() {
                None => {
                    return None;
                },
                Some(Some(s)) => {
                    return Some(s);
                },
                Some(None) => {},
            }
            budget = budget - 1;
        }
        self.stalled = true;
        None
    }

    /// Up to `n` further answers, in order: see [`take_s`]. Fewer only when
    /// the search is exhausted or stalled.
    pub fn take(&mut self, n: usize) -> (r: Vec<StateN>)
        ensures
            (query_v(*final(self)), answers_v(r@)) == take_s(query_v(*old(self)), n as nat),
            r@.len() <= n,
            r@.len() < n ==> exhausted(*final(self)) || final(self).stalled,
            forall|i: int| 0 <= i < r@.len() ==> (#[trigger] r@[i]).n == old(self).arity,
            final(self).arity == old(self).arity,
    {
        let ghost q0 = query_v(*self);
        let mut out: Vec<StateN> = Vec::new();
        while out.len() < n
            invariant
                out@.len() <= n,
                self.arity == old(self).arity,
                q0 == query_v(*old(self)),
                forall|i: int| 0 <= i < out@.len() ==> (#[trigger] out@[i]).n == old(self).arity,
                take_s(q0, n as nat) == (take_s(query_v(*self), (n - out.len()) as nat).0,
                    answers_v(out@) + take_s(query_v(*self), (n - out.len()) as nat).1),
            decreases n - out.len(),
        {
            let ghost qb = query_v(*self);
            let ghost ob = out@;
            match self.next() {
                Some(state) => {
                    out.push(StateN { state, n: self.arity });
                    assert(answers_v(out@) =~= answers_v(ob).push(st(out@[out.len() - 1].state)));
                    assert(answers_v(out@) + take_s(query_v(*self), (n - out.len()) as nat).1 =~=
                        answers_v(ob) + (seq![st(out@[out.len() - 1].state)] + take_s(query_v(*self), (n - out.len()) as nat).1));
                },
                None => {
                    assert(answers_v(out@) + Seq::<StV>::empty() =~= answers_v(out@));
                    return out;
                },
            }
        }
        assert(answers_v(out@) + Seq::<StV>::empty() =~= answers_v(out@));
        out
    }

    /// Every further answer, in order: see [`take_all_s`]; stops early only
    /// when stalled.
    pub fn take_all(&mut self) -> (r: Vec<StateN>)
        ensures
            (query_v(*final(self)), answers_v(r@)) == take_all_s(query_v(*old(self)), STEPS as nat),
            exhausted(*final(self)) || final(self).stalled,
            forall|i: int| 0 <= i < r@.len() ==> (#[trigger] r@[i]).n == old(self).arity,
    {
        let ghost q0 = query_v(*self);
        let mut out: Vec<StateN> = Vec::new();
        let mut budget: u64 = STEPS;
        assert(answers_v(out@) =~= Seq::<StV>::empty());
        while budget > 0
            invariant
                self.arity == old(self).arity,
                q0 == query_v(*old(self)),
                forall|i: int| 0 <= i < out@.len() ==> (#[trigger] out@[i]).n == old(self).arity,
                take_all_s(q0, STEPS as nat) == (take_all_s(query_v(*self), budget as nat).0,
                    answers_v(out@) + take_all_s(query_v(*self), budget as nat).1),
            decreases budget,
        {
            let ghost ob = out@;
            match self.next() {
                Some(state) => {
                    out.push(StateN { state, n: self.arity });
                    assert(answers_v(out@) =~= answers_v(ob).push(st(out@[out.len() - 1].state)));
                    assert(answers_v(out@) + take_all_s(query_v(*self), (budget - 1) as nat).1 =~=
                        answers_v(ob) + (seq![st(out@[out.len() - 1].state)] + take_all_s(query_v(*self), (budget - 1) as nat).1));
                },
                None => {
                    assert(answers_v(out@) + Seq::<StV>::empty() =~= answers_v(out@));
                    return out;
                },
            }
            budget = budget - 1;
        }
        self.stalled = true;
        assert(answers_v(out@) + Seq::<StV>::empty() =~= answers_v(out@));
        out
    }
}

/// Starts a query: see [`query_s`].
pub fn query<B: Binding>(f: B) -> (r: Query<B>)
    ensures
        query_v(r) == query_s(f),
        r.arity == f.wanted(),
        f.wanted() <= u32::MAX ==> r.goal == intern_s(
            Seq::<Node<B>>::empty(),
            f.body(numbered(0, f.wanted())),
        ).1,
{
    let mut engine: Engine<B> = Engine::new();
    let arity = f.arity();
    match engine.fresh_vars(arity) {
        Some(vars) => {
            let g = f.bind(&vars);
            let goal = engine.intern(g);
            let start = State::new();
            assert(st(start) == ((Seq::<Option<Term>>::empty(), Seq::<Seq<(Var, Term)>>::empty()), 0u32));
            let stream = engine.call(goal, &start, DEPTH);
            let r = Query {
                engine,
                goal,
                arity,
                stream,
                mature_iter: Vec::new(),
                immature_iter: Vec::new(),
                stalled: false,
            };
            assert(query_v(r).batch =~= Seq::<StV>::empty());
            assert(query_v(r).waiting =~= Seq::<SuspV>::empty());
            r
        },
        None => {
            engine.overflow = true;
            let r = Query {
                engine,
                goal: 0,
                arity,
                stream: Stream::empty(),
                mature_iter: Vec::new(),
                immature_iter: Vec::new(),
                stalled: false,
            };
            assert(query_v(r).batch =~= Seq::<StV>::empty());
            assert(query_v(r).waiting =~= Seq::<SuspV>::empty());
            assert(query_v(r).stream =~= empty_v());
            r
        },
    }
}

/// The variable counter of a query could not number the fresh variables
/// of some goal: a fatal condition for the query.
#[derive(Debug, Clone, Copy, PartialEq, Eq, Structural)]
pub struct CounterOverflow;

/// The first `n` answers of the query `f`, in order (fewer when it has no
/// more): see [`take_s`]. `Err` when the variable counter overflowed while
/// they were sought.
pub fn run<B: Binding>(n: usize, f: B) -> (r: Result<Vec<StateN>, CounterOverflow>)
    ensures
        r is Err <==> take_s(query_s(f), n as nat).0.eng.2,
        r matches Ok(v) ==> answers_v(v@) == take_s(query_s(f), n as nat).1 && v@.len() <= n
            && forall|i: int| 0 <= i < v@.len() ==> (#[trigger] v@[i]).n == f.wanted(),
{
    let mut q = query(f);
    let v = q.take(n);
    if q.engine.overflow {
        Err(CounterOverflow)
    } else {
        Ok(v)
    }
}

/// Every answer of the query `f`, in order: see [`take_all_s`]. `Err` when
/// the variable counter overflowed while they were sought.
pub fn run_all<B: Binding>(f: B) -> (r: Result<Vec<StateN>, CounterOverflow>)
    ensures
        r is Err <==> take_all_s(query_s(f), STEPS as nat).0.eng.2,
        r matches Ok(v) ==> answers_v(v@) == take_all_s(query_s(f), STEPS as nat).1
            && forall|i: int| 0 <= i < v@.len() ==> (#[trigger] v@[i]).n == f.wanted(),
{
    let mut q = query(f);
    let v = q.take_all();
    if q.engine.overflow {
        Err(CounterOverflow)
    } else {
        Ok(v)
    }
}

/// The answers of a query, taken one at a time.
pub struct QueryIter<'a, B>(pub &'a mut Query<B>);

impl<'a, B: Binding> QueryIter<'a, B> {
    /// The next answer: see [`Query::next`].
    pub fn next(&mut self) -> (r: Option<StateN>)
        ensures
            r matches Some(a) ==> a.n == old(self).0.arity,
            (query_v(*final(self).0), match r {
                None => None,
                Some(a) => Some(st(a.state)),
            }) == next_s(query_v(*old(self).0)),
            r is None ==> exhausted(*final(self).0) || final(self).0.stalled,
    {
        let arity = self.0.arity;
        match self.0.next() {
            Some(state) => Some(StateN { state, n: arity }),
            None => None,
        }
    }
}

impl<B: Binding> Query<B> {
    /// The answers still to come, one at a time.
    pub fn iter(&mut self) -> (r: QueryIter<'_, B>)
        ensures
            *r.0 == *old(self),
    {
        QueryIter(self)
    }
}

/// An answer of a query over `n` query variables.
pub struct StateN {
    pub state: State,
    pub n: usize,
}

} // verus!
