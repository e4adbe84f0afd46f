//! The search: goals interned in an arena whose deferred nodes are resolved
//! once, streams of mature states and suspended branches, and the pull
//! scheduler that interleaves them.
use vstd::prelude::*;
use crate::term::{Term, Var};
use crate::goal::{Binding, Goal};
use crate::state::{State, Store, eq_result, neq_result};
use crate::subst::DEPTH;

verus! {

/// A suspended branch: the body of the suspending node `goal` is to run on
/// `state`, then each goal of `binds` is bound in order over the resulting
/// stream.
pub struct Suspension {
    pub goal: usize,
    pub state: State,
    pub binds: Vec<usize>,
}

/// States ready to be answered, and branches waiting to be resumed.
pub struct Stream {
    pub mature: Vec<State>,
    pub immature: Vec<Suspension>,
}

impl Stream {
    pub fn empty() -> (r: Stream)
        ensures
            r.mature@.len() == 0,
            r.immature@.len() == 0,
    {
        Stream { mature: Vec::new(), immature: Vec::new() }
    }

    /// The stream of the single state `state`.
    pub fn new(state: State) -> (r: Stream)
        ensures
            r.mature@ == seq![state],
            r.immature@.len() == 0,
    {
        let mut mature: Vec<State> = Vec::new();
        mature.push(state);
        Stream { mature, immature: Vec::new() }
    }

    /// Appends `s`: its states after ours, its suspensions after ours.
    pub fn append(&mut self, s: Stream)
        ensures
            final(self).mature@ == old(self).mature@ + s.mature@,
            final(self).immature@ == old(self).immature@ + s.immature@,
    {
        let mut s = s;
        self.mature.append(&mut s.mature);
        self.immature.append(&mut s.immature);
    }
}

/// The stream of `a` followed by that of `b`.
pub fn append(a: Stream, b: Stream) -> (r: Stream)
    ensures
        r.mature@ == a.mature@ + b.mature@,
        r.immature@ == a.immature@ + b.immature@,
{
    let mut a = a;
    a.append(b);
    a
}

/// A deferred node: its binding until first use, then the interned body.
pub enum FreshInner<B> {
    Pending(B),
    Resolved(usize),
}

/// A suspending node: its binding until first use, then the interned body.
pub enum YieldInner<B> {
    Pending(B),
    Resolved(usize),
}

/// A goal in the arena; children are arena indices.
pub enum Node<B> {
    Eq(Term, Term),
    Neq(Term, Term),
    Both(usize, usize),
    Either(usize, usize),
    Fresh(FreshInner<B>),
    Yield(YieldInner<B>),
}

/// `v` in reverse order.
pub fn reversed<T>(v: Vec<T>) -> (r: Vec<T>)
    ensures
        r@ == v@.reverse(),
{
    let ghost orig = v@;
    let mut v = v;
    let mut r: Vec<T> = Vec::new();
    while v.len() > 0
        invariant
            v.len() <= orig.len(),
            v@ == orig.subrange(0, v.len() as int),
            r@.len() == orig.len() - v.len(),
            forall|j: int| 0 <= j < r@.len() ==> #[trigger] r@[j] == orig[orig.len() - 1 - j],
        decreases v.len(),
    {
        let x = v.pop().unwrap();
        r.push(x);
    }
    assert(r@ =~= orig.reverse());
    r
}

/// A state as a value: its substitution and store, and its depth.
pub type StV = (Store, u32);

/// A suspension as a value: the suspending node, the state it resumes on,
/// and the goals bound after it.
pub type SuspV = (usize, StV, Seq<usize>);

/// A stream as a value.
pub type StreamV = (Seq<StV>, Seq<SuspV>);

/// The goal arena, the variable counter, and whether the counter ran out.
pub type EngV<B> = (Seq<Node<B>>, u32, bool);

pub open spec fn st(s: State) -> StV {
    (s@, s.depth)
}

pub open spec fn susp_v(s: Suspension) -> SuspV {
    (s.goal, st(s.state), s.binds@)
}

pub open spec fn stream_v(s: Stream) -> StreamV {
    (s.mature@.map_values(|x: State| st(x)), s.immature@.map_values(|x: Suspension| susp_v(x)))
}

pub open spec fn empty_v() -> StreamV {
    (Seq::empty(), Seq::empty())
}

pub open spec fn append_v(a: StreamV, b: StreamV) -> StreamV {
    (a.0 + b.0, a.1 + b.1)
}

/// `s` with `g` bound after its other goals.
pub open spec fn lift_v(s: SuspV, g: usize) -> SuspV {
    (s.0, s.1, s.2.push(g))
}

/// One level deeper, saturating.
pub open spec fn deeper(d: u32) -> u32 {
    if d < u32::MAX {
        (d + 1) as u32
    } else {
        d
    }
}

/// The arena after the nodes of `g` are added, and the index of its root;
/// children are added before their parent, left before right.
pub open spec fn intern_s<B>(nodes: Seq<Node<B>>, g: Goal<B>) -> (Seq<Node<B>>, usize)
    decreases g,
{
    match g {
        Goal::Eq(a, b) => (nodes.push(Node::Eq(a, b)), nodes.len() as usize),
        Goal::Neq(a, b) => (nodes.push(Node::Neq(a, b)), nodes.len() as usize),
        Goal::Both(a, b) => {
            let (n1, ia) = intern_s(nodes, *a);
            let (n2, ib) = intern_s(n1, *b);
            (n2.push(Node::Both(ia, ib)), n2.len() as usize)
        },
        Goal::Either(a, b) => {
            let (n1, ia) = intern_s(nodes, *a);
            let (n2, ib) = intern_s(n1, *b);
            (n2.push(Node::Either(ia, ib)), n2.len() as usize)
        },
        Goal::Fresh(f) => (nodes.push(Node::Fresh(FreshInner::Pending(f))), nodes.len() as usize),
        Goal::Yield(f) => (nodes.push(Node::Yield(YieldInner::Pending(f))), nodes.len() as usize),
    }
}

/// The `k` variables numbered from `next` on.
pub open spec fn numbered(next: u32, k: nat) -> Seq<Var> {
    Seq::new(k, |i: int| Var((next + i) as u32))
}

/// Resolving the deferred node `id` on first use. A pending `Fresh` node
/// takes `wanted()` variables from the counter (when they do not fit, the
/// overflow flag is set and there is no body); a pending `Yield` node takes
/// none. The body is built over them, interned, and recorded in the node.
/// A resolved node gives its body; other nodes give none.
pub open spec fn resolve_s<B: Binding>(e: EngV<B>, id: usize) -> (EngV<B>, Option<usize>) {
    let (nodes, next, ovf) = e;
    if id >= nodes.len() {
        (e, None)
    } else {
        match nodes[id as int] {
            Node::Fresh(FreshInner::Resolved(c)) => (e, if c < nodes.len() { Some(c) } else { None }),
            Node::Yield(YieldInner::Resolved(c)) => (e, if c < nodes.len() { Some(c) } else { None }),
            Node::Fresh(FreshInner::Pending(f)) => {
                if next + f.wanted() > u32::MAX {
                    ((nodes, next, true), None)
                } else {
                    let (n2, c) = intern_s(nodes, f.body(numbered(next, f.wanted())));
                    (
                        (n2.update(id as int, Node::Fresh(FreshInner::Resolved(c))), (next
                            + f.wanted()) as u32, ovf),
                        Some(c),
                    )
                }
            },
            Node::Yield(YieldInner::Pending(f)) => {
                let (n2, c) = intern_s(nodes, f.body(Seq::empty()));
                ((n2.update(id as int, Node::Yield(YieldInner::Resolved(c))), next, ovf), Some(c))
            },
            _ => (e, None),
        }
    }
}

/// Running node `id` on `s`, at most `fuel` nodes deep. An equality or
/// disequality gives its one answer or none; `Either` gives the stream of
/// its left goal followed by that of its right; `Both` binds its right goal
/// over the stream of its left; `Fresh` runs its resolved body; `Yield`
/// gives no states and one suspension of itself on the state one level
/// deeper.
pub open spec fn call_s<B: Binding>(e: EngV<B>, id: usize, s: StV, fuel: nat) -> (EngV<B>, StreamV)
    decreases fuel, 2nat, 0nat,
{
    if fuel == 0 || id >= e.0.len() {
        (e, empty_v())
    } else {
        match e.0[id as int] {
            Node::Eq(a, b) => (
                e,
                match eq_result(a, b, s.0) {
                    Some(x) => (seq![(x, s.1)], Seq::empty()),
                    None => empty_v(),
                },
            ),
            Node::Neq(a, b) => (
                e,
                match neq_result(a, b, s.0) {
                    Some(x) => (seq![(x, s.1)], Seq::empty()),
                    None => empty_v(),
                },
            ),
            Node::Both(x, y) => {
                let (e1, s1) = call_s(e, x, s, (fuel - 1) as nat);
                mappend_s(e1, y, s1, (fuel - 1) as nat)
            },
            Node::Either(x, y) => {
                let (e1, sa) = call_s(e, x, s, (fuel - 1) as nat);
                let (e2, sb) = call_s(e1, y, s, (fuel - 1) as nat);
                (e2, append_v(sa, sb))
            },
            Node::Fresh(_) => {
                let (e1, c) = resolve_s(e, id);
                match c {
                    Some(c) => call_s(e1, c, s, (fuel - 1) as nat),
                    None => (e1, empty_v()),
                }
            },
            Node::Yield(_) => (e, (Seq::empty(), seq![(id, (s.0, deeper(s.1)), Seq::<usize>::empty())])),
        }
    }
}

/// Running `g` on each of `states` in turn, the streams appended in order.
pub open spec fn bind_states<B: Binding>(e: EngV<B>, g: usize, states: Seq<StV>, fuel: nat) -> (
    EngV<B>,
    StreamV,
)
    decreases fuel, 0nat, states.len(),
{
    if states.len() == 0 {
        (e, empty_v())
    } else {
        let (e1, acc) = bind_states(e, g, states.drop_last(), fuel);
        if fuel > 0 {
            let (e2, s2) = call_s(e1, g, states.last(), (fuel - 1) as nat);
            (e2, append_v(acc, s2))
        } else {
            (e1, acc)
        }
    }
}

/// Binding `g` over `sv`: `g` runs on each mature state, the results
/// appended in order; then each suspension follows, with `g` bound after its
/// other goals.
pub open spec fn mappend_s<B: Binding>(e: EngV<B>, g: usize, sv: StreamV, fuel: nat) -> (
    EngV<B>,
    StreamV,
)
    decreases fuel, 1nat, 0nat,
{
    let (e1, acc) = bind_states(e, g, sv.0, fuel);
    (e1, (acc.0, acc.1 + sv.1.map_values(|x: SuspV| lift_v(x, g))))
}

/// Binding each goal of `binds` in turn over `sv`.
pub open spec fn bind_all<B: Binding>(e: EngV<B>, sv: StreamV, binds: Seq<usize>, fuel: nat) -> (
    EngV<B>,
    StreamV,
)
    decreases binds.len(),
{
    if binds.len() == 0 {
        (e, sv)
    } else {
        let (e1, s1) = bind_all(e, sv, binds.drop_last(), fuel);
        mappend_s(e1, binds.last(), s1, fuel)
    }
}

/// Resuming a suspension: its node's body, resolved on first use, runs on
/// its state, and its bound goals follow in order.
pub open spec fn resume_s<B: Binding>(e: EngV<B>, sp: SuspV, fuel: nat) -> (EngV<B>, StreamV) {
    let (e1, c) = resolve_s(e, sp.0);
    let (e2, s0) = match c {
        Some(c) => call_s(e1, c, sp.1, fuel),
        None => (e1, empty_v()),
    };
    bind_all(e2, s0, sp.2, fuel)
}

/// The goal arena of one query, with the counter that numbers its
/// variables and a flag set when the counter could not number a body's
/// variables.
pub struct Engine<B> {
    pub nodes: Vec<Node<B>>,
    pub next_var: u32,
    pub overflow: bool,
}

pub open spec fn eng_v<B>(e: Engine<B>) -> EngV<B> {
    (e.nodes@, e.next_var, e.overflow)
}

impl<B: Binding> Engine<B> {
    pub fn new() -> (r: Engine<B>)
        ensures
            eng_v(r) == (Seq::<Node<B>>::empty(), 0u32, false),
    {
        Engine { nodes: Vec::new(), next_var: 0, overflow: false }
    }

    /// Takes `k` variables from the counter: the next `k` numbers, or `None`
    /// when the numbers would run past `u32::MAX`.
    pub fn fresh_vars(&mut self, k: usize) -> (r: Option<Vec<Var>>)
        ensures
            final(self).nodes == old(self).nodes,
            final(self).overflow == old(self).overflow,
            r is None ==> old(self).next_var + k > u32::MAX && final(self).next_var == old(
                self,
            ).next_var,
            r matches Some(vs) ==> {
                &&& old(self).next_var + k <= u32::MAX
                &&& final(self).next_var == old(self).next_var + k
                &&& vs@ == numbered(old(self).next_var, k as nat)
            },
    {
        if k > (u32::MAX - self.next_var) as usize {
            return None;
        }
        let mut vs: Vec<Var> = Vec::new();
        let mut i: usize = 0;
        while i < k
            invariant
                0 <= i <= k,
                old(self).next_var + k <= u32::MAX,
                self.next_var == old(self).next_var + i,
                self.nodes == old(self).nodes,
                self.overflow == old(self).overflow,
                vs@ == numbered(old(self).next_var, i as nat),
            decreases k - i,
        {
            let ghost before = vs@;
            vs.push(Var(self.next_var));
            self.next_var = self.next_var + 1;
            i = i + 1;
            assert(vs@ =~= numbered(old(self).next_var, i as nat));
        }
        Some(vs)
    }

    /// Adds the nodes of `g` to the arena; returns the index of its root.
    /// See [`intern_s`].
    pub fn intern(&mut self, g: Goal<B>) -> (r: usize)
        ensures
            final(self).next_var == old(self).next_var,
            final(self).overflow == old(self).overflow,
            (final(self).nodes@, r) == intern_s(old(self).nodes@, g),
            final(self).nodes@.len() > old(self).nodes@.len(),
            r < final(self).nodes@.len(),
        decreases g,
    {
        let ghost g0 = g;
        let node = match g {
            Goal::Eq(a, b) => Node::Eq(a, b),
            Goal::Neq(a, b) => Node::Neq(a, b),
            Goal::Both(a, b) => {
                let ia = self.intern(*a);
                let ib = self.intern(*b);
                Node::Both(ia, ib)
            },
            Goal::Either(a, b) => {
                let ia = self.intern(*a);
                let ib = self.intern(*b);
                Node::Either(ia, ib)
            },
            Goal::Fresh(f) => Node::Fresh(FreshInner::Pending(f)),
            Goal::Yield(f) => Node::Yield(YieldInner::Pending(f)),
        };
        let r = self.nodes.len();
        self.nodes.push(node);
        r
    }

    /// Resolves the deferred node `id` on first use: see [`resolve_s`].
    pub fn resolve(&mut self, id: usize) -> (r: Option<usize>)
        ensures
            (eng_v(*final(self)), r) == resolve_s(eng_v(*old(self)), id),
    {
        if id >= self.nodes.len() {
            return None;
        }
        let pending: bool = match &self.nodes[id] {
            Node::Fresh(FreshInner::Pending(_)) => true,
            Node::Yield(YieldInner::Pending(_)) => true,
            Node::Fresh(FreshInner::Resolved(c)) => {
                return if *c < self.nodes.len() { Some(*c) } else { None };
            },
            Node::Yield(YieldInner::Resolved(c)) => {
                return if *c < self.nodes.len() { Some(*c) } else { None };
            },
            _ => false,
        };
        if !pending {
            return None;
        }
        let is_fresh: bool = match &self.nodes[id] {
            Node::Fresh(_) => true,
            _ => false,
        };
        let k: usize = match &self.nodes[id] {
            Node::Fresh(FreshInner::Pending(f)) => f.arity(),
            _ => 0,
        };
        let vars = match self.fresh_vars(k) {
            Some(vs) => vs,
            None => {
                self.overflow = true;
                return None;
            },
        };
        let body: Goal<B> = match &self.nodes[id] {
            Node::Fresh(FreshInner::Pending(f)) => f.bind(&vars),
            Node::Yield(YieldInner::Pending(f)) => f.bind(&vars),
            _ => Goal::Eq(Term::Null, Term::Value(0)),
        };
        proof {
            if !is_fresh {
                assert(vars@ =~= Seq::<Var>::empty());
            }
        }
        let c = self.intern(body);
        if is_fresh {
            self.nodes.set(id, Node::Fresh(FreshInner::Resolved(c)));
        } else {
            self.nodes.set(id, Node::Yield(YieldInner::Resolved(c)));
        }
        Some(c)
    }

    /// Runs node `id` on `state`, descending at most `fuel` nodes deep:
    /// see [`call_s`].
    pub fn call(&mut self, id: usize, state: &State, fuel: u64) -> (r: Stream)
        ensures
            (eng_v(*final(self)), stream_v(r)) == call_s(eng_v(*old(self)), id, st(*state), fuel as nat),
        decreases fuel,
    {
        if fuel == 0 || id >= self.nodes.len() {
            let r = Stream::empty();
            assert(stream_v(r) =~= empty_v());
            return r;
        }
        let (kind, x, y): (u8, usize, usize) = match &self.nodes[id] {
            Node::Eq(a, b) => {
                let r = match state.solve_eq(a, b) {
                    Some(s) => Stream::new(s),
                    None => Stream::empty(),
                };
                assert(stream_v(r).0 =~= call_s(eng_v(*old(self)), id, st(*state), fuel as nat).1.0);
                assert(stream_v(r).1 =~= Seq::<SuspV>::empty());
                return r;
            },
            Node::Neq(a, b) => {
                let r = match state.solve_neq(a, b) {
                    Some(s) => Stream::new(s),
                    None => Stream::empty(),
                };
                assert(stream_v(r).0 =~= call_s(eng_v(*old(self)), id, st(*state), fuel as nat).1.0);
                assert(stream_v(r).1 =~= Seq::<SuspV>::empty());
                return r;
            },
            Node::Both(a, b) => (0, *a, *b),
            Node::Either(a, b) => (1, *a, *b),
            Node::Fresh(_) => (2, 0, 0),
            Node::Yield(_) => (3, 0, 0),
        };
        if kind == 0 {
            let s = self.call(x, state, fuel - 1);
            self.mappend(y, s, fuel - 1)
        } else if kind == 1 {
            let sa = self.call(x, state, fuel - 1);
            let sb = self.call(y, state, fuel - 1);
            let ghost va = stream_v(sa);
            let ghost vb = stream_v(sb);
            let r = append(sa, sb);
            assert(stream_v(r) =~= append_v(va, vb));
            r
        } else if kind == 2 {
            match self.resolve(id) {
                Some(c) => self.call(c, state, fuel - 1),
                None => {
                    let r = Stream::empty();
                    assert(stream_v(r) =~= empty_v());
                    r
                },
            }
        } else {
            let mut s = state.copy();
            if s.depth < u32::MAX {
                s.depth = s.depth + 1;
            }
            let mut immature: Vec<Suspension> = Vec::new();
            immature.push(Suspension { goal: id, state: s, binds: Vec::new() });
            let r = Stream { mature: Vec::new(), immature };
            assert(stream_v(r).0 =~= Seq::<StV>::empty());
            assert(stream_v(r).1 =~= seq![(id, (state@, deeper(state.depth)), Seq::<usize>::empty())]);
            r
        }
    }

    /// Binds `g` over `stream`: see [`mappend_s`].
    pub fn mappend(&mut self, g: usize, stream: Stream, fuel: u64) -> (r: Stream)
        ensures
            (eng_v(*final(self)), stream_v(r)) == mappend_s(eng_v(*old(self)), g, stream_v(stream), fuel as nat),
        decreases fuel,
    {
        let ghost sv = stream_v(stream);
        let Stream { mature, immature } = stream;
        let ghost states = sv.0;
        let mut result = Stream::empty();
        assert(stream_v(result) =~= empty_v());
        let mut i: usize = 0;
        while i < mature.len()
            invariant
                0 <= i <= mature.len(),
                states == mature@.map_values(|x: State| st(x)),
                (eng_v(*self), stream_v(result)) == bind_states(eng_v(*old(self)), g, states.subrange(0, i as int), fuel as nat),
            decreases mature.len() - i,
        {
            assert(states.subrange(0, i + 1).drop_last() =~= states.subrange(0, i as int));
            if fuel > 0 {
                let s = self.call(g, &mature[i], fuel - 1);
                let ghost va = stream_v(result);
                let ghost vb = stream_v(s);
                result.append(s);
                assert(stream_v(result) =~= append_v(va, vb));
            }
            i = i + 1;
        }
        assert(states.subrange(0, mature.len() as int) =~= states);
        let ghost base = stream_v(result).1;
        let ghost orig = immature@;
        let mut rev = reversed(immature);
        while rev.len() > 0
            invariant
                rev.len() <= orig.len(),
                rev@ == orig.reverse().subrange(0, rev.len() as int),
                stream_v(result).0 == bind_states(eng_v(*old(self)), g, states, fuel as nat).1.0,
                eng_v(*self) == bind_states(eng_v(*old(self)), g, states, fuel as nat).0,
                stream_v(result).1 == base + orig.subrange(0, orig.len() - rev.len()).map_values(|x: Suspension| lift_v(susp_v(x), g)),
            decreases rev.len(),
        {
            let ghost k = orig.len() - rev.len();
            let ghost before = stream_v(result).1;
            let mut susp = rev.pop().unwrap();
            assert(susp == orig[k]);
            susp.binds.push(g);
            result.immature.push(susp);
            assert(orig.subrange(0, k + 1).map_values(|x: Suspension| lift_v(susp_v(x), g)) =~= orig.subrange(0, k).map_values(|x: Suspension| lift_v(susp_v(x), g)).push(lift_v(susp_v(orig[k]), g)));
            assert(stream_v(result).1 =~= before.push(lift_v(susp_v(orig[k]), g)));
        }
        assert(orig.subrange(0, orig.len() as int).map_values(|x: Suspension| lift_v(susp_v(x), g)) =~= sv.1.map_values(|x: SuspV| lift_v(x, g)));
        result
    }

    /// Resumes a suspended branch: see [`resume_s`].
    pub fn resume(&mut self, susp: Suspension, fuel: u64) -> (r: Stream)
        ensures
            (eng_v(*final(self)), stream_v(r)) == resume_s(eng_v(*old(self)), susp_v(susp), fuel as nat),
    {
        let mut s = match self.resolve(susp.goal) {
            Some(c) => self.call(c, &susp.state, fuel),
            None => {
                let r = Stream::empty();
                assert(stream_v(r) =~= empty_v());
                r
            },
        };
        let ghost e2 = eng_v(*self);
        let ghost s0 = stream_v(s);
        let mut i: usize = 0;
        while i < susp.binds.len()
            invariant
                0 <= i <= susp.binds.len(),
                (eng_v(*self), stream_v(s)) == bind_all(e2, s0, susp.binds@.subrange(0, i as int), fuel as nat),
            decreases susp.binds.len() - i,
        {
            assert(susp.binds@.subrange(0, i + 1).drop_last() =~= susp.binds@.subrange(0, i as int));
            s = self.mappend(susp.binds[i], s, fuel);
            i = i + 1;
        }
        assert(susp.binds@.subrange(0, susp.binds.len() as int) =~= susp.binds@);
        s
    }
}

} // verus!
