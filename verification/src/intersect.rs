//! The edge walk of O'Rourke's convex polygon intersection, over oracles
//! that answer for pairs of edges.
//!
//! Polygon `P` has the vertices `0..p_len`, polygon `Q` the vertices
//! `0..q_len`, both counter-clockwise. The edge with head `i` runs from
//! vertex `i - 1` (cyclically) to vertex `i`. The walk stands on one edge
//! of each polygon. In each step it asks how the two edges lie to each
//! other, emits their crossing if they meet, and moves on along the edge
//! that lies outside, emitting the head it leaves where that polygon runs
//! inside the other. It ends when a crossing is the first one again, and
//! after twice as many steps as both polygons have edges at the latest.

use vstd::prelude::*;

verus! {

/// What the numeric side reports of the edge of `P` with head `p` and the
/// edge of `Q` with head `q`.
#[derive(Clone, Copy, Debug, PartialEq, Eq)]
pub struct EdgeTest {
    /// The two edges meet: both intersection parameters lie in `[0, 1]`.
    pub crossing: bool,
    /// The head of `P`'s edge lies strictly to the left of `Q`'s edge.
    pub p_in_dq_side: bool,
    /// The head of `Q`'s edge lies strictly to the left of `P`'s edge.
    pub q_in_dp_side: bool,
    /// `Q`'s edge wedged with `P`'s edge is strictly positive.
    pub dq_dp_ccw: bool,
}

/// Which polygon's boundary currently runs inside the other one.
#[derive(Clone, Copy, Debug, PartialEq, Eq)]
pub enum Inside {
    Unknown,
    P,
    Q,
}

/// A vertex of the intersection polygon.
#[derive(Clone, Copy, Debug, PartialEq, Eq)]
pub enum Vertex {
    /// The point where the edge of `P` with head `p` meets the edge of `Q`
    /// with head `q`.
    Crossing { p: usize, q: usize },
    /// Vertex `.0` of `P`.
    OfP(usize),
    /// Vertex `.0` of `Q`.
    OfQ(usize),
}

/// One step of the walk: where it leads and what it emits.
#[derive(Clone, Copy, Debug, PartialEq, Eq)]
pub struct Step {
    /// Head of the edge of `P` after the step.
    pub p: usize,
    /// Head of the edge of `Q` after the step.
    pub q: usize,
    pub inside: Inside,
    /// The walk came back to its first crossing and ends.
    pub closed: bool,
    /// The crossing of the two edges, if the step emits it.
    pub crossing: Option<Vertex>,
    /// The head that the walk leaves, if the step emits it.
    pub vertex: Option<Vertex>,
}

/// The head that follows `head` on a polygon of `len` vertices.
pub open spec fn next_head(head: usize, len: usize) -> usize {
    ((head + 1) % (len as int)) as usize
}

/// The walk advances on `Q` (and not on `P`) after test `t`.
pub open spec fn advances_q(t: EdgeTest) -> bool {
    (t.dq_dp_ccw && t.p_in_dq_side) || (!t.dq_dp_ccw && !t.q_in_dp_side)
}

/// The step that the walk takes from the edges with heads `p` and `q`
/// when their test is `t` and their crossing is (`back_at_start`) or is
/// not the first vertex that the walk emitted.
pub open spec fn step_of(
    p: usize,
    q: usize,
    inside: Inside,
    t: EdgeTest,
    back_at_start: bool,
    p_len: usize,
    q_len: usize,
) -> Step {
    if back_at_start {
        Step { p, q, inside, closed: true, crossing: None, vertex: None }
    } else {
        let inside = if !t.crossing {
            inside
        } else if t.p_in_dq_side {
            Inside::P
        } else {
            Inside::Q
        };
        let crossing = if t.crossing {
            Some(Vertex::Crossing { p, q })
        } else {
            None
        };
        if advances_q(t) {
            Step {
                p,
                q: next_head(q, q_len),
                inside,
                closed: false,
                crossing,
                vertex: if inside is Q {
                    Some(Vertex::OfQ(q))
                } else {
                    None
                },
            }
        } else {
            Step {
                p: next_head(p, p_len),
                q,
                inside,
                closed: false,
                crossing,
                vertex: if inside is P {
                    Some(Vertex::OfP(p))
                } else {
                    None
                },
            }
        }
    }
}

/// The vertices that `step` emits, in their order.
pub open spec fn emitted(step: Step) -> Seq<Vertex> {
    (match step.crossing {
        Some(v) => seq![v],
        None => Seq::empty(),
    }) + (match step.vertex {
        Some(v) => seq![v],
        None => Seq::empty(),
    })
}

/// Takes one step of the walk from the edges with heads `p` and `q`.
pub fn advance(
    p: usize,
    q: usize,
    inside: Inside,
    t: EdgeTest,
    back_at_start: bool,
    p_len: usize,
    q_len: usize,
) -> (step: Step)
    requires
        p < p_len,
        q < q_len,
    ensures
        step == step_of(p, q, inside, t, back_at_start, p_len, q_len),
{
    if back_at_start {
        return Step { p, q, inside, closed: true, crossing: None, vertex: None };
    }
    let mut inside = inside;
    let mut crossing: Option<Vertex> = None;
    if t.crossing {
        crossing = Some(Vertex::Crossing { p, q });
        inside = if t.p_in_dq_side {
            Inside::P
        } else {
            Inside::Q
        };
    }
    if (t.dq_dp_ccw && t.p_in_dq_side) || (!t.dq_dp_ccw && !t.q_in_dp_side) {
        let vertex = match inside {
            Inside::Q => Some(Vertex::OfQ(q)),
            _ => None,
        };
        Step { p, q: (q + 1) % q_len, inside, closed: false, crossing, vertex }
    } else {
        let vertex = match inside {
            Inside::P => Some(Vertex::OfP(p)),
            _ => None,
        };
        Step { p: (p + 1) % p_len, q, inside, closed: false, crossing, vertex }
    }
}

/// A model of the edge oracle.
pub type EdgeOracle = spec_fn(usize, usize) -> EdgeTest;

/// A model of the oracle that compares two crossings: `same(p_first,
/// q_first, p, q)` says that the crossing of the edges with heads `p_first`
/// and `q_first` is the point at which the edges with heads `p` and `q`
/// cross.
pub type Coincide = spec_fn(usize, usize, usize, usize) -> bool;

/// The state of the walk between two steps.
pub struct Walk {
    /// Head of the current edge of `P`.
    pub p: usize,
    /// Head of the current edge of `Q`.
    pub q: usize,
    pub inside: Inside,
    /// The vertices emitted so far.
    pub out: Seq<Vertex>,
    /// The walk came back to its first crossing.
    pub closed: bool,
}

/// The walk before its first step: on the edges with head 1.
pub open spec fn walk_start() -> Walk {
    Walk { p: 1, q: 1, inside: Inside::Unknown, out: Seq::empty(), closed: false }
}

/// The crossing of the current edges is the first vertex emitted.
pub open spec fn closes(w: Walk, t: EdgeTest, same: Coincide) -> bool {
    &&& t.crossing
    &&& w.out.len() > 0
    &&& w.out[0] matches Vertex::Crossing { p, q }
    &&& same(p, q, w.p, w.q)
}

/// The walk `w` after `step`.
pub open spec fn stepped(w: Walk, step: Step) -> Walk {
    Walk {
        p: step.p,
        q: step.q,
        inside: step.inside,
        out: w.out + emitted(step),
        closed: step.closed,
    }
}

/// One step of a walk that has not closed.
pub open spec fn walk_step(
    w: Walk,
    p_len: usize,
    q_len: usize,
    test: EdgeOracle,
    same: Coincide,
) -> Walk {
    let t = test(w.p, w.q);
    stepped(w, step_of(w.p, w.q, w.inside, t, closes(w, t, same), p_len, q_len))
}

/// The walk after `steps` steps; a closed walk stays as it is.
pub open spec fn walk(
    steps: nat,
    p_len: usize,
    q_len: usize,
    test: EdgeOracle,
    same: Coincide,
) -> Walk
    decreases steps,
{
    if steps == 0 {
        walk_start()
    } else {
        let w = walk((steps - 1) as nat, p_len, q_len, test, same);
        if w.closed {
            w
        } else {
            walk_step(w, p_len, q_len, test, same)
        }
    }
}

/// The number of steps after which the walk gives up.
pub open spec fn step_limit(p_len: usize, q_len: usize) -> nat {
    (2 * (p_len + q_len)) as nat
}

/// The intersection polygon of `P` and `Q` under the oracles `test` and
/// `same`.
pub open spec fn intersection_of(
    p_len: usize,
    q_len: usize,
    test: EdgeOracle,
    same: Coincide,
) -> Seq<Vertex> {
    walk(step_limit(p_len, q_len), p_len, q_len, test, same).out
}

/// The oracles may be asked about all edges of `P` and `Q`.
pub open spec fn askable<F, G>(edge_test: F, same_crossing: G, p_len: usize, q_len: usize) -> bool
    where F: Fn(usize, usize) -> EdgeTest, G: Fn(usize, usize, usize, usize) -> bool {
    &&& forall|p: usize, q: usize| p < p_len && q < q_len ==> call_requires(edge_test, (p, q))
    &&& forall|p_first: usize, q_first: usize, p: usize, q: usize|
        p_first < p_len && q_first < q_len && p < p_len && q < q_len ==> call_requires(
            same_crossing,
            (p_first, q_first, p, q),
        )
}

/// The oracles answer by `test` and `same` about all edges of `P` and `Q`.
pub open spec fn answer_by<F, G>(
    edge_test: F,
    same_crossing: G,
    test: EdgeOracle,
    same: Coincide,
    p_len: usize,
    q_len: usize,
) -> bool where F: Fn(usize, usize) -> EdgeTest, G: Fn(usize, usize, usize, usize) -> bool {
    &&& forall|p: usize, q: usize, t: EdgeTest|
        p < p_len && q < q_len && #[trigger] call_ensures(edge_test, (p, q), t) ==> t == test(
            p,
            q,
        )
    &&& forall|p_first: usize, q_first: usize, p: usize, q: usize, r: bool|
        p_first < p_len && q_first < q_len && p < p_len && q < q_len && #[trigger] call_ensures(
            same_crossing,
            (p_first, q_first, p, q),
            r,
        ) ==> r == same(p_first, q_first, p, q)
}

/// `v` names vertices and edges that exist.
pub open spec fn in_range(v: Vertex, p_len: usize, q_len: usize) -> bool {
    match v {
        Vertex::Crossing { p, q } => p < p_len && q < q_len,
        Vertex::OfP(p) => p < p_len,
        Vertex::OfQ(q) => q < q_len,
    }
}

/// Every vertex of `out` is in range.
pub open spec fn all_in_range(out: Seq<Vertex>, p_len: usize, q_len: usize) -> bool {
    forall|k: int| 0 <= k < out.len() ==> in_range(#[trigger] out[k], p_len, q_len)
}

/// The emitted vertex is a crossing only where `test` confirms one.
pub open spec fn confirmed(v: Vertex, test: EdgeOracle) -> bool {
    v matches Vertex::Crossing { p, q } ==> test(p, q).crossing
}

/// A closed walk does not move any more.
pub proof fn lemma_closed_walk_rests(
    from: nat,
    to: nat,
    p_len: usize,
    q_len: usize,
    test: EdgeOracle,
    same: Coincide,
)
    requires
        from <= to,
        walk(from, p_len, q_len, test, same).closed,
    ensures
        walk(to, p_len, q_len, test, same) == walk(from, p_len, q_len, test, same),
    decreases to - from,
{
    if from < to {
        lemma_closed_walk_rests(from, (to - 1) as nat, p_len, q_len, test, same);
    }
}

/// A walk only ever appends to what it has emitted.
pub proof fn lemma_walk_grows(
    from: nat,
    to: nat,
    p_len: usize,
    q_len: usize,
    test: EdgeOracle,
    same: Coincide,
)
    requires
        from <= to,
    ensures
        walk(from, p_len, q_len, test, same).out.is_prefix_of(
            walk(to, p_len, q_len, test, same).out,
        ),
    decreases to - from,
{
    if from < to {
        lemma_walk_grows(from, (to - 1) as nat, p_len, q_len, test, same);
    }
}

/// What holds of a walk after any number of steps: its edges exist, it has
/// emitted at most two vertices per step, all of them in range and every
/// crossing among them confirmed by `test`, and it knows which polygon runs
/// inside exactly when it has emitted a crossing, which then comes first.
pub proof fn lemma_walk_keeps_shape(
    steps: nat,
    p_len: usize,
    q_len: usize,
    test: EdgeOracle,
    same: Coincide,
)
    requires
        p_len >= 2,
        q_len >= 2,
    ensures
        ({
            let w = walk(steps, p_len, q_len, test, same);
            &&& w.p < p_len
            &&& w.q < q_len
            &&& w.out.len() <= 2 * steps
            &&& all_in_range(w.out, p_len, q_len)
            &&& forall|k: int| 0 <= k < w.out.len() ==> confirmed(#[trigger] w.out[k], test)
            &&& w.inside is Unknown <==> w.out.len() == 0
            &&& w.out.len() > 0 ==> w.out[0] is Crossing
        }),
    decreases steps,
{
    if steps > 0 {
        lemma_walk_keeps_shape((steps - 1) as nat, p_len, q_len, test, same);
        let before = walk((steps - 1) as nat, p_len, q_len, test, same);
        let after = walk(steps, p_len, q_len, test, same);
        if !before.closed {
            let t = test(before.p, before.q);
            let step = step_of(
                before.p,
                before.q,
                before.inside,
                t,
                closes(before, t, same),
                p_len,
                q_len,
            );
            assert(after.out == before.out + emitted(step));
            assert forall|k: int| 0 <= k < after.out.len() implies in_range(
                #[trigger] after.out[k],
                p_len,
                q_len,
            ) && confirmed(after.out[k], test) by {
                if k < before.out.len() {
                    assert(after.out[k] == before.out[k]);
                }
            }
            if before.out.len() > 0 {
                assert(after.out[0] == before.out[0]);
            }
        }
    }
}

/// The intersection has at most four vertices for each vertex of `P` and
/// `Q`, all of them in range, and it starts with a crossing.
pub proof fn lemma_intersection_shape(
    p_len: usize,
    q_len: usize,
    test: EdgeOracle,
    same: Coincide,
)
    requires
        p_len >= 2,
        q_len >= 2,
    ensures
        intersection_of(p_len, q_len, test, same).len() <= 4 * (p_len + q_len),
        all_in_range(intersection_of(p_len, q_len, test, same), p_len, q_len),
        intersection_of(p_len, q_len, test, same).len() > 0 ==> intersection_of(
            p_len,
            q_len,
            test,
            same,
        )[0] is Crossing,
{
    lemma_walk_keeps_shape(step_limit(p_len, q_len), p_len, q_len, test, same);
}

/// Polygons whose edges never meet have an empty intersection, whether
/// they lie apart or one inside the other.
pub proof fn lemma_without_crossing_empty(
    p_len: usize,
    q_len: usize,
    test: EdgeOracle,
    same: Coincide,
)
    requires
        p_len >= 2,
        q_len >= 2,
        forall|p: usize, q: usize| p < p_len && q < q_len ==> !(#[trigger] test(p, q)).crossing,
    ensures
        intersection_of(p_len, q_len, test, same) == Seq::<Vertex>::empty(),
{
    let whole = intersection_of(p_len, q_len, test, same);
    lemma_walk_keeps_shape(step_limit(p_len, q_len), p_len, q_len, test, same);
    if whole.len() > 0 {
        assert(in_range(whole[0], p_len, q_len));
        assert(confirmed(whole[0], test));
    }
}

/// The first vertex of `out`, if it has one.
pub open spec fn first_of(out: Seq<Vertex>) -> Option<Vertex> {
    if out.len() > 0 {
        Some(out[0])
    } else {
        None
    }
}

/// `back_at_start` is what `same_crossing` has answered of the first
/// crossing and the crossing of the edges with heads `p` and `q`, where
/// there are both, and is false where there are not.
pub open spec fn compared<G: Fn(usize, usize, usize, usize) -> bool>(
    same_crossing: G,
    first: Option<Vertex>,
    p: usize,
    q: usize,
    t: EdgeTest,
    back_at_start: bool,
) -> bool {
    if t.crossing {
        match first {
            Some(Vertex::Crossing { p: p_first, q: q_first }) => call_ensures(
                same_crossing,
                (p_first, q_first, p, q),
                back_at_start,
            ),
            _ => !back_at_start,
        }
    } else {
        !back_at_start
    }
}

/// Asks the oracles about the edges with heads `p` and `q`: how they lie to
/// each other, and, where they cross after `first` was emitted, whether
/// they cross in that first vertex.
fn probe<F, G>(
    edge_test: &F,
    same_crossing: &G,
    first: Option<Vertex>,
    p: usize,
    q: usize,
    p_len: usize,
    q_len: usize,
) -> (answer: (EdgeTest, bool)) where
    F: Fn(usize, usize) -> EdgeTest,
    G: Fn(usize, usize, usize, usize) -> bool,

    requires
        askable(*edge_test, *same_crossing, p_len, q_len),
        p < p_len,
        q < q_len,
        first matches Some(v) ==> in_range(v, p_len, q_len),
    ensures
        call_ensures(*edge_test, (p, q), answer.0),
        compared(*same_crossing, first, p, q, answer.0, answer.1),
{
    let t = edge_test(p, q);
    let mut back_at_start = false;
    if t.crossing {
        match first {
            Some(Vertex::Crossing { p: p_first, q: q_first }) => {
                back_at_start = same_crossing(p_first, q_first, p, q);
            },
            _ => {},
        }
    }
    (t, back_at_start)
}

/// A step that follows the oracles' answers is the step of the walk under
/// any model of the oracles.
proof fn lemma_step_follows<F, G>(
    edge_test: F,
    same_crossing: G,
    p_len: usize,
    q_len: usize,
    steps: nat,
    before: Walk,
    t: EdgeTest,
    back_at_start: bool,
) where F: Fn(usize, usize) -> EdgeTest, G: Fn(usize, usize, usize, usize) -> bool
    requires
        before.p < p_len,
        before.q < q_len,
        !before.closed,
        all_in_range(before.out, p_len, q_len),
        call_ensures(edge_test, (before.p, before.q), t),
        compared(same_crossing, first_of(before.out), before.p, before.q, t, back_at_start),
        forall|test: EdgeOracle, same: Coincide| #[trigger]
            answer_by(edge_test, same_crossing, test, same, p_len, q_len) ==> walk(
                steps,
                p_len,
                q_len,
                test,
                same,
            ) == before,
    ensures
        forall|test: EdgeOracle, same: Coincide| #[trigger]
            answer_by(edge_test, same_crossing, test, same, p_len, q_len) ==> walk(
                steps + 1,
                p_len,
                q_len,
                test,
                same,
            ) == stepped(
                before,
                step_of(before.p, before.q, before.inside, t, back_at_start, p_len, q_len),
            ),
{
    assert forall|test: EdgeOracle, same: Coincide| #[trigger]
        answer_by(edge_test, same_crossing, test, same, p_len, q_len) implies walk(
        steps + 1,
        p_len,
        q_len,
        test,
        same,
    ) == stepped(
        before,
        step_of(before.p, before.q, before.inside, t, back_at_start, p_len, q_len),
    ) by {
        assert(walk(steps, p_len, q_len, test, same) == before);
        assert(t == test(before.p, before.q));
        if t.crossing && before.out.len() > 0 {
            assert(in_range(before.out[0], p_len, q_len));
        }
        assert(back_at_start == closes(before, t, same));
    }
}

/// A walk that is closed or has taken all its steps has emitted the
/// intersection.
proof fn lemma_walk_is_done<F, G>(
    edge_test: F,
    same_crossing: G,
    p_len: usize,
    q_len: usize,
    steps: nat,
    done: Walk,
) where F: Fn(usize, usize) -> EdgeTest, G: Fn(usize, usize, usize, usize) -> bool
    requires
        steps <= step_limit(p_len, q_len),
        done.closed || steps == step_limit(p_len, q_len),
        forall|test: EdgeOracle, same: Coincide| #[trigger]
            answer_by(edge_test, same_crossing, test, same, p_len, q_len) ==> walk(
                steps,
                p_len,
                q_len,
                test,
                same,
            ) == done,
    ensures
        forall|test: EdgeOracle, same: Coincide| #[trigger]
            answer_by(edge_test, same_crossing, test, same, p_len, q_len) ==> intersection_of(
                p_len,
                q_len,
                test,
                same,
            ) == done.out,
{
    assert forall|test: EdgeOracle, same: Coincide| #[trigger]
        answer_by(edge_test, same_crossing, test, same, p_len, q_len) implies intersection_of(
        p_len,
        q_len,
        test,
        same,
    ) == done.out by {
        if done.closed {
            lemma_closed_walk_rests(steps, step_limit(p_len, q_len), p_len, q_len, test, same);
        }
    }
}

/// Where a step of the walk emits more than `buffer` holds, the
/// intersection has more vertices than `buffer`, and a `buffer` that holds
/// the first of what the walk has emitted holds the first vertices of the
/// intersection.
proof fn lemma_walk_overflows<F, G>(
    edge_test: F,
    same_crossing: G,
    p_len: usize,
    q_len: usize,
    steps: nat,
    after: Walk,
    buffer: Seq<Vertex>,
) where F: Fn(usize, usize) -> EdgeTest, G: Fn(usize, usize, usize, usize) -> bool
    requires
        steps <= step_limit(p_len, q_len),
        buffer.len() < after.out.len(),
        buffer.is_prefix_of(after.out),
        forall|test: EdgeOracle, same: Coincide| #[trigger]
            answer_by(edge_test, same_crossing, test, same, p_len, q_len) ==> walk(
                steps,
                p_len,
                q_len,
                test,
                same,
            ) == after,
    ensures
        forall|test: EdgeOracle, same: Coincide| #[trigger]
            answer_by(edge_test, same_crossing, test, same, p_len, q_len) ==> {
                &&& intersection_of(p_len, q_len, test, same).len() > buffer.len()
                &&& intersection_of(p_len, q_len, test, same).take(buffer.len() as int)
                    == buffer
            },
{
    assert forall|test: EdgeOracle, same: Coincide| #[trigger]
        answer_by(edge_test, same_crossing, test, same, p_len, q_len) implies {
        &&& intersection_of(p_len, q_len, test, same).len() > buffer.len()
        &&& intersection_of(p_len, q_len, test, same).take(buffer.len() as int) == buffer
    } by {
        lemma_walk_grows(steps, step_limit(p_len, q_len), p_len, q_len, test, same);
        let whole = intersection_of(p_len, q_len, test, same);
        assert(after.out.is_prefix_of(whole));
        assert(whole.take(buffer.len() as int) =~= buffer);
    }
}

/// Walks the edges of `P` and `Q` and returns the vertices of their
/// intersection in the order in which the walk meets them.
pub fn convex_intersect_alloc<F, G>(
    p_len: usize,
    q_len: usize,
    edge_test: F,
    same_crossing: G,
) -> (convex_r: Vec<Vertex>) where
    F: Fn(usize, usize) -> EdgeTest,
    G: Fn(usize, usize, usize, usize) -> bool,

    requires
        p_len >= 2,
        q_len >= 2,
        2 * (p_len + q_len) <= usize::MAX,
        askable(edge_test, same_crossing, p_len, q_len),
    ensures
        convex_r@.len() <= 4 * (p_len + q_len),
        all_in_range(convex_r@, p_len, q_len),
        forall|test: EdgeOracle, same: Coincide| #[trigger]
            answer_by(edge_test, same_crossing, test, same, p_len, q_len) ==> convex_r@
                == intersection_of(p_len, q_len, test, same),
{
    let mut p_i: usize = 1;
    let mut q_i: usize = 1;
    let mut convex_r: Vec<Vertex> = Vec::new();
    let mut inside = Inside::Unknown;
    let mut closed = false;
    let steps: usize = 2 * (p_len + q_len);
    let mut taken: usize = 0;
    while taken < steps && !closed
        invariant
            p_len >= 2,
            q_len >= 2,
            steps == 2 * (p_len + q_len),
            taken <= steps,
            p_i < p_len,
            q_i < q_len,
            askable(edge_test, same_crossing, p_len, q_len),
            convex_r@.len() <= 2 * taken,
            all_in_range(convex_r@, p_len, q_len),
            forall|test: EdgeOracle, same: Coincide| #[trigger]
                answer_by(edge_test, same_crossing, test, same, p_len, q_len) ==> walk(
                    taken as nat,
                    p_len,
                    q_len,
                    test,
                    same,
                ) == (Walk { p: p_i, q: q_i, inside, out: convex_r@, closed }),
        decreases steps - taken,
    {
        let ghost before = Walk { p: p_i, q: q_i, inside, out: convex_r@, closed };
        let first: Option<Vertex> = if convex_r.len() != 0 {
            Some(convex_r[0])
        } else {
            None
        };
        let (t, back_at_start) = probe(&edge_test, &same_crossing, first, p_i, q_i, p_len, q_len);
        let step = advance(p_i, q_i, inside, t, back_at_start, p_len, q_len);
        proof {
            lemma_step_follows(
                edge_test,
                same_crossing,
                p_len,
                q_len,
                taken as nat,
                before,
                t,
                back_at_start,
            );
        }
        match step.crossing {
            Some(v) => {
                convex_r.push(v);
            },
            None => {},
        }
        match step.vertex {
            Some(v) => {
                convex_r.push(v);
            },
            None => {},
        }
        p_i = step.p;
        q_i = step.q;
        inside = step.inside;
        closed = step.closed;
        taken += 1;
        assert(convex_r@ == before.out + emitted(step));
    }
    proof {
        lemma_walk_is_done(
            edge_test,
            same_crossing,
            p_len,
            q_len,
            taken as nat,
            Walk { p: p_i, q: q_i, inside, out: convex_r@, closed },
        );
    }
    convex_r
}

/// `locate` may be asked about every vertex in range.
pub open spec fn locatable<T, L: Fn(Vertex) -> T>(locate: L, p_len: usize, q_len: usize) -> bool {
    forall|v: Vertex| in_range(v, p_len, q_len) ==> call_requires(locate, (v,))
}

/// `locate` answers by `place` about every vertex in range.
pub open spec fn locates_by<T, L: Fn(Vertex) -> T>(
    locate: L,
    place: spec_fn(Vertex) -> T,
    p_len: usize,
    q_len: usize,
) -> bool {
    forall|v: Vertex, at: T|
        in_range(v, p_len, q_len) && #[trigger] call_ensures(locate, (v,), at) ==> at == place(v)
}

/// `buffer` starts with what `locate` has answered about each vertex of
/// `out`.
pub open spec fn located<T, L: Fn(Vertex) -> T>(
    locate: L,
    out: Seq<Vertex>,
    buffer: Seq<T>,
) -> bool {
    &&& out.len() <= buffer.len()
    &&& forall|k: int| 0 <= k < out.len() ==> call_ensures(locate, (#[trigger] out[k],), buffer[k])
}

/// A buffer that holds what `locate` has answered about vertices holds
/// their places under any model of `locate`.
proof fn lemma_located_is_placed<T, L: Fn(Vertex) -> T>(
    locate: L,
    out: Seq<Vertex>,
    buffer: Seq<T>,
    p_len: usize,
    q_len: usize,
)
    requires
        located(locate, out, buffer),
        all_in_range(out, p_len, q_len),
    ensures
        forall|place: spec_fn(Vertex) -> T| #[trigger]
            locates_by(locate, place, p_len, q_len) ==> buffer.take(out.len() as int)
                == out.map_values(place),
{
    assert forall|place: spec_fn(Vertex) -> T| #[trigger]
        locates_by(locate, place, p_len, q_len) implies buffer.take(out.len() as int)
        == out.map_values(place) by {
        let placed = out.map_values(place);
        let front = buffer.take(out.len() as int);
        assert(front.len() == placed.len());
        assert forall|k: int| 0 <= k < front.len() implies front[k] == placed[k] by {
            assert(in_range(out[k], p_len, q_len));
            assert(call_ensures(locate, (out[k],), buffer[k]));
        }
    }
}

/// Walks the edges of `P` and `Q` as `convex_intersect_alloc` does and
/// writes what `locate` makes of the vertices of their intersection to the
/// front of `convex_r`. Returns their number, or `None` as soon as one
/// does not fit; `convex_r` is then full of the vertices that come first.
pub fn convex_intersect_no_alloc<T, F, G, L>(
    p_len: usize,
    q_len: usize,
    edge_test: F,
    same_crossing: G,
    locate: L,
    convex_r: &mut [T],
) -> (written: Option<usize>) where
    F: Fn(usize, usize) -> EdgeTest,
    G: Fn(usize, usize, usize, usize) -> bool,
    L: Fn(Vertex) -> T,

    requires
        p_len >= 2,
        q_len >= 2,
        2 * (p_len + q_len) <= usize::MAX,
        askable(edge_test, same_crossing, p_len, q_len),
        locatable(locate, p_len, q_len),
    ensures
        final(convex_r)@.len() == old(convex_r)@.len(),
        old(convex_r)@.len() >= 4 * (p_len + q_len) ==> written is Some,
        written matches Some(len) ==> {
            &&& len <= old(convex_r)@.len()
            &&& len <= 4 * (p_len + q_len)
            &&& forall|k: int|
                len <= k < old(convex_r)@.len() ==> final(convex_r)@[k] == old(convex_r)@[k]
        },
        forall|test: EdgeOracle, same: Coincide, place: spec_fn(Vertex) -> T|
            #![trigger
                answer_by(edge_test, same_crossing, test, same, p_len, q_len),
                locates_by(locate, place, p_len, q_len)]
            answer_by(edge_test, same_crossing, test, same, p_len, q_len) && locates_by(
                locate,
                place,
                p_len,
                q_len,
            ) ==> match written {
                Some(len) => final(convex_r)@.take(len as int) == intersection_of(
                    p_len,
                    q_len,
                    test,
                    same,
                ).map_values(place),
                None => {
                    &&& intersection_of(p_len, q_len, test, same).len() > old(convex_r)@.len()
                    &&& intersection_of(p_len, q_len, test, same).take(
                        old(convex_r)@.len() as int,
                    ).map_values(place) == final(convex_r)@
                },
            },
{
    let capacity: usize = convex_r.len();
    let mut convex_r_len: usize = 0;
    let mut first: Option<Vertex> = None;
    let ghost mut out: Seq<Vertex> = Seq::empty();
    let mut p_i: usize = 1;
    let mut q_i: usize = 1;
    let mut inside = Inside::Unknown;
    let mut closed = false;
    let steps: usize = 2 * (p_len + q_len);
    let mut taken: usize = 0;
    while taken < steps && !closed
        invariant
            p_len >= 2,
            q_len >= 2,
            steps == 2 * (p_len + q_len),
            taken <= steps,
            p_i < p_len,
            q_i < q_len,
            askable(edge_test, same_crossing, p_len, q_len),
            locatable(locate, p_len, q_len),
            capacity == convex_r@.len() == old(convex_r)@.len(),
            convex_r_len == out.len(),
            convex_r_len <= capacity,
            convex_r_len <= 2 * taken,
            first == first_of(out),
            all_in_range(out, p_len, q_len),
            located(locate, out, convex_r@),
            forall|k: int| convex_r_len <= k < capacity ==> convex_r@[k] == old(convex_r)@[k],
            forall|test: EdgeOracle, same: Coincide| #[trigger]
                answer_by(edge_test, same_crossing, test, same, p_len, q_len) ==> walk(
                    taken as nat,
                    p_len,
                    q_len,
                    test,
                    same,
                ) == (Walk { p: p_i, q: q_i, inside, out, closed }),
        decreases steps - taken,
    {
        let ghost before = Walk { p: p_i, q: q_i, inside, out, closed };
        let (t, back_at_start) = probe(&edge_test, &same_crossing, first, p_i, q_i, p_len, q_len);
        let step = advance(p_i, q_i, inside, t, back_at_start, p_len, q_len);
        proof {
            lemma_step_follows(
                edge_test,
                same_crossing,
                p_len,
                q_len,
                taken as nat,
                before,
                t,
                back_at_start,
            );
        }
        match step.crossing {
            Some(v) => {
                if convex_r_len == capacity {
                    proof {
                        lemma_located_is_placed(locate, out, convex_r@, p_len, q_len);
                        lemma_walk_overflows(
                            edge_test,
                            same_crossing,
                            p_len,
                            q_len,
                            (taken + 1) as nat,
                            stepped(before, step),
                            out,
                        );
                    }
                    return None;
                }
                assert(in_range(v, p_len, q_len));
                convex_r[convex_r_len] = locate(v);
                convex_r_len += 1;
                if first.is_none() {
                    first = Some(v);
                }
                proof {
                    out = out.push(v);
                }
            },
            None => {},
        }
        match step.vertex {
            Some(v) => {
                if convex_r_len == capacity {
                    proof {
                        lemma_located_is_placed(locate, out, convex_r@, p_len, q_len);
                        lemma_walk_overflows(
                            edge_test,
                            same_crossing,
                            p_len,
                            q_len,
                            (taken + 1) as nat,
                            stepped(before, step),
                            out,
                        );
                    }
                    return None;
                }
                assert(in_range(v, p_len, q_len));
                convex_r[convex_r_len] = locate(v);
                convex_r_len += 1;
                if first.is_none() {
                    first = Some(v);
                }
                proof {
                    out = out.push(v);
                }
            },
            None => {},
        }
        p_i = step.p;
        q_i = step.q;
        inside = step.inside;
        closed = step.closed;
        taken += 1;
        assert(out == before.out + emitted(step));
    }
    proof {
        lemma_located_is_placed(locate, out, convex_r@, p_len, q_len);
        lemma_walk_is_done(
            edge_test,
            same_crossing,
            p_len,
            q_len,
            taken as nat,
            Walk { p: p_i, q: q_i, inside, out, closed },
        );
    }
    Some(convex_r_len)
}

} // verus!
