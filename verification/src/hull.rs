//! The stack scan of Graham's convex hull algorithm, over an orientation
//! oracle.
//!
//! The points are known to this module only by their positions `0..count`
//! in angular order around the pivot (position 0). Whether three of them
//! make a left turn is answered by the caller's oracle. That the scan
//! yields the convex hull of points whose orientation the oracle answers
//! by is shown in `enclosure`.

use vstd::prelude::*;

verus! {

/// An orientation predicate: `left(a, b, c)` says that the path from point
/// `a` over `b` to `c` turns strictly to the left.
pub type Orientation = spec_fn(int, int, int) -> bool;

/// `left(a, b, c)`, in a form that quantifiers can be matched on.
pub open spec fn turns_left(left: Orientation, a: int, b: int, c: int) -> bool {
    left(a, b, c)
}

/// The positions held in an index buffer, as mathematical integers.
pub open spec fn positions(indices: Seq<usize>) -> Seq<int> {
    indices.map_values(|i: usize| i as int)
}

/// Pops the top of `stack` for as long as the two topmost positions and
/// `next` do not make a left turn.
pub open spec fn settle(stack: Seq<int>, next: int, left: Orientation) -> Seq<int>
    decreases stack.len(),
{
    if stack.len() >= 2 && !left(stack[stack.len() - 2], stack[stack.len() - 1], next) {
        settle(stack.drop_last(), next, left)
    } else {
        stack
    }
}

/// The hull stack after the first `count` positions have been scanned.
pub open spec fn hull_of(count: nat, left: Orientation) -> Seq<int>
    decreases count,
{
    if count == 0 {
        Seq::empty()
    } else {
        settle(hull_of((count - 1) as nat, left), count - 1, left).push(count - 1)
    }
}

/// `oracle` answers by `left` on every increasing triple below `count`.
pub open spec fn answers<F: Fn(usize, usize, usize) -> bool>(
    oracle: F,
    left: Orientation,
    count: nat,
) -> bool {
    forall|a: usize, b: usize, c: usize, r: bool|
        a < b < c < count && #[trigger] call_ensures(oracle, (a, b, c), r) ==> r == left(
            a as int,
            b as int,
            c as int,
        )
}

/// `stack` is strictly increasing and stays below `bound`.
pub open spec fn increasing_below(stack: Seq<int>, bound: int) -> bool {
    &&& forall|k: int| 0 <= k < stack.len() ==> 0 <= #[trigger] stack[k] < bound
    &&& forall|j: int, k: int| 0 <= j < k < stack.len() ==> stack[j] < stack[k]
}

/// `oracle` has answered that the three entries of `hull` from `k` on make
/// a left turn.
pub open spec fn kept_at<F: Fn(usize, usize, usize) -> bool>(
    oracle: F,
    hull: Seq<usize>,
    k: int,
) -> bool {
    call_ensures(oracle, (hull[k], hull[k + 1], hull[k + 2]), true)
}

/// `oracle` has answered of any three consecutive entries of `hull` that
/// they make a left turn.
pub open spec fn kept_by<F: Fn(usize, usize, usize) -> bool>(oracle: F, hull: Seq<usize>) -> bool {
    forall|k: int| 0 <= k && k + 2 < hull.len() ==> #[trigger] kept_at(oracle, hull, k)
}

/// `oracle` has answered of every position below `scanned` that `hull`
/// leaves out that it makes no left turn between an earlier position and a
/// later one below `count`.
pub open spec fn dropped_by<F: Fn(usize, usize, usize) -> bool>(
    oracle: F,
    scanned: usize,
    count: usize,
    hull: Seq<usize>,
) -> bool {
    forall|d: usize|
        d < scanned && !(#[trigger] hull.contains(d)) ==> exists|a: usize, c: usize|
            a < d < c < count && #[trigger] call_ensures(oracle, (a, d, c), false)
}

/// Popping an entry that `oracle` has refused leaves a hull that accounts
/// for every position it leaves out.
proof fn lemma_pop_is_accounted_for<F: Fn(usize, usize, usize) -> bool>(
    oracle: F,
    scanned: usize,
    count: usize,
    hull: Seq<usize>,
)
    requires
        hull.len() >= 2,
        scanned < count,
        hull[hull.len() - 2] < hull[hull.len() - 1] < scanned,
        call_ensures(oracle, (hull[hull.len() - 2], hull[hull.len() - 1], scanned), false),
        dropped_by(oracle, scanned, count, hull),
        kept_by(oracle, hull),
    ensures
        dropped_by(oracle, scanned, count, hull.drop_last()),
        kept_by(oracle, hull.drop_last()),
{
    let rest = hull.drop_last();
    assert forall|d: usize| d < scanned && !(#[trigger] rest.contains(d)) implies exists|
        a: usize,
        c: usize,
    | a < d < c < count && #[trigger] call_ensures(oracle, (a, d, c), false) by {
        if d == hull[hull.len() - 1] {
            assert(call_ensures(oracle, (hull[hull.len() - 2], d, scanned), false));
        } else {
            if hull.contains(d) {
                let k = choose|k: int| 0 <= k < hull.len() && hull[k] == d;
                assert(rest[k] == d);
            }
        }
    }
    assert forall|k: int| 0 <= k && k + 2 < rest.len() implies #[trigger] kept_at(
        oracle,
        rest,
        k,
    ) by {
        assert(kept_at(oracle, hull, k));
    }
}

/// Pushing the position that was scanned on a hull whose two topmost
/// entries turn left with it leaves a hull that accounts for every position
/// it leaves out.
proof fn lemma_push_is_accounted_for<F: Fn(usize, usize, usize) -> bool>(
    oracle: F,
    scanned: usize,
    count: usize,
    hull: Seq<usize>,
)
    requires
        scanned < count,
        hull.len() >= 2 ==> call_ensures(
            oracle,
            (hull[hull.len() - 2], hull[hull.len() - 1], scanned),
            true,
        ),
        dropped_by(oracle, scanned, count, hull),
        kept_by(oracle, hull),
    ensures
        dropped_by(oracle, (scanned + 1) as usize, count, hull.push(scanned)),
        kept_by(oracle, hull.push(scanned)),
{
    let pushed = hull.push(scanned);
    assert forall|d: usize| d < scanned + 1 && !(#[trigger] pushed.contains(d)) implies exists|
        a: usize,
        c: usize,
    | a < d < c < count && #[trigger] call_ensures(oracle, (a, d, c), false) by {
        if d == scanned {
            assert(pushed[pushed.len() - 1] == d);
        } else {
            if hull.contains(d) {
                let k = choose|k: int| 0 <= k < hull.len() && hull[k] == d;
                assert(pushed[k] == d);
            }
        }
    }
    assert forall|k: int| 0 <= k && k + 2 < pushed.len() implies #[trigger] kept_at(
        oracle,
        pushed,
        k,
    ) by {
        if k + 2 < hull.len() {
            assert(kept_at(oracle, hull, k));
        }
    }
}

/// Scans the positions `0..count`, which follow each other by angle around
/// position 0, and leaves the hull in the first `len` entries of
/// `indices_on_hull`, in scan order. Each position is pushed on the hull
/// after the entries that make no left turn with it have been popped:
/// while the two topmost entries and the position do not turn left, the
/// topmost entry goes.
pub fn graham_scan<F: Fn(usize, usize, usize) -> bool>(
    count: usize,
    left_turn: F,
    indices_on_hull: &mut [usize],
) -> (len: usize)
    requires
        old(indices_on_hull)@.len() >= count,
        forall|a: usize, b: usize, c: usize|
            a < b < c < count ==> call_requires(left_turn, (a, b, c)),
    ensures
        final(indices_on_hull)@.len() == old(indices_on_hull)@.len(),
        len <= count,
        forall|k: int|
            count <= k < old(indices_on_hull)@.len() ==> final(indices_on_hull)@[k] == old(
                indices_on_hull,
            )@[k],
        increasing_below(positions(final(indices_on_hull)@.take(len as int)), count as int),
        count >= 1 ==> len >= 1 && final(indices_on_hull)@[0] == 0 && final(indices_on_hull)@[len
            - 1] == count - 1,
        count >= 2 ==> len >= 2,
        kept_by(left_turn, final(indices_on_hull)@.take(len as int)),
        dropped_by(left_turn, count, count, final(indices_on_hull)@.take(len as int)),
        forall|left: Orientation| #[trigger]
            answers(left_turn, left, count as nat) ==> positions(
                final(indices_on_hull)@.take(len as int),
            ) == hull_of(count as nat, left),
{
    let mut len: usize = 0;
    let mut i: usize = 0;
    while i < count
        invariant
            i >= 1 ==> len >= 1 && indices_on_hull@[0] == 0 && indices_on_hull@[len - 1] == i - 1,
            i >= 2 ==> len >= 2,
            kept_by(left_turn, indices_on_hull@.take(len as int)),
            dropped_by(left_turn, i, count, indices_on_hull@.take(len as int)),
            indices_on_hull@.len() == old(indices_on_hull)@.len(),
            indices_on_hull@.len() >= count,
            forall|a: usize, b: usize, c: usize|
                a < b < c < count ==> call_requires(left_turn, (a, b, c)),
            len <= i <= count,
            forall|k: int|
                count <= k < indices_on_hull@.len() ==> indices_on_hull@[k] == old(
                    indices_on_hull,
                )@[k],
            increasing_below(positions(indices_on_hull@.take(len as int)), i as int),
            forall|left: Orientation| #[trigger]
                answers(left_turn, left, count as nat) ==> positions(
                    indices_on_hull@.take(len as int),
                ) == hull_of(i as nat, left),
        decreases count - i,
    {
        let ghost scanned = positions(indices_on_hull@.take(len as int));
        while len >= 2
            invariant
                indices_on_hull@.len() >= count,
                forall|a: usize, b: usize, c: usize|
                    a < b < c < count ==> call_requires(left_turn, (a, b, c)),
                len <= i < count,
                i >= 1 ==> len >= 1 && indices_on_hull@[0] == 0,
                increasing_below(positions(indices_on_hull@.take(len as int)), i as int),
                kept_by(left_turn, indices_on_hull@.take(len as int)),
                dropped_by(left_turn, i, count, indices_on_hull@.take(len as int)),
                forall|left: Orientation| #[trigger]
                    answers(left_turn, left, count as nat) ==> settle(
                        positions(indices_on_hull@.take(len as int)),
                        i as int,
                        left,
                    ) == settle(scanned, i as int, left),
            ensures
                len <= i < count,
                i >= 1 ==> len >= 1 && indices_on_hull@[0] == 0,
                increasing_below(positions(indices_on_hull@.take(len as int)), i as int),
                kept_by(left_turn, indices_on_hull@.take(len as int)),
                dropped_by(left_turn, i, count, indices_on_hull@.take(len as int)),
                len >= 2 ==> call_ensures(
                    left_turn,
                    (indices_on_hull@[len - 2], indices_on_hull@[len - 1], i),
                    true,
                ),
                forall|left: Orientation| #[trigger]
                    answers(left_turn, left, count as nat) ==> positions(
                        indices_on_hull@.take(len as int),
                    ) == settle(scanned, i as int, left),
            decreases len,
        {
            let ghost stack = positions(indices_on_hull@.take(len as int));
            let a: usize = indices_on_hull[len - 2];
            let b: usize = indices_on_hull[len - 1];
            assert(a as int == stack[len - 2] && b as int == stack[len - 1]);
            let keep: bool = left_turn(a, b, i);
            if keep {
                break ;
            }
            proof {
                lemma_pop_is_accounted_for(
                    left_turn,
                    i,
                    count,
                    indices_on_hull@.take(len as int),
                );
                assert(indices_on_hull@.take(len - 1) == indices_on_hull@.take(
                    len as int,
                ).drop_last());
            }
            len -= 1;
            assert(positions(indices_on_hull@.take(len as int)) == stack.drop_last());
        }
        let ghost settled = positions(indices_on_hull@.take(len as int));
        let ghost entries = indices_on_hull@.take(len as int);
        indices_on_hull[len] = i;
        len += 1;
        i += 1;
        proof {
            let stack = positions(indices_on_hull@.take(len as int));
            lemma_push_is_accounted_for(left_turn, (i - 1) as usize, count, entries);
            assert(indices_on_hull@.take(len as int) == entries.push((i - 1) as usize));
            assert(stack == settled.push(i - 1));
            assert forall|j: int, k: int| 0 <= j < k < stack.len() implies stack[j] < stack[k] by {
                if k < settled.len() {
                    assert(stack[j] == settled[j] && stack[k] == settled[k]);
                } else {
                    assert(stack[j] == settled[j]);
                }
            }
        }
    }
    len
}

/// What `settle` leaves is the bottom of `stack`; it keeps the lowest
/// entry, and where it keeps two entries or more, the topmost two make a
/// left turn with `next`.
pub proof fn lemma_settle(stack: Seq<int>, next: int, left: Orientation)
    ensures
        settle(stack, next, left).is_prefix_of(stack),
        stack.len() >= 1 ==> settle(stack, next, left).len() >= 1,
        ({
            let kept = settle(stack, next, left);
            kept.len() >= 2 ==> left(kept[kept.len() - 2], kept[kept.len() - 1], next)
        }),
    decreases stack.len(),
{
    if stack.len() >= 2 && !left(stack[stack.len() - 2], stack[stack.len() - 1], next) {
        lemma_settle(stack.drop_last(), next, left);
    }
}

/// Every entry that `settle` pops makes no left turn between the entry
/// below it and `next`.
pub proof fn lemma_settle_popped(stack: Seq<int>, next: int, left: Orientation, k: int)
    requires
        settle(stack, next, left).len() <= k < stack.len(),
    ensures
        k >= 1,
        !left(stack[k - 1], stack[k], next),
    decreases stack.len(),
{
    lemma_settle(stack, next, left);
    if k < stack.len() - 1 {
        lemma_settle_popped(stack.drop_last(), next, left, k);
    }
}

/// The hull lists positions below `count` in increasing order, from the
/// pivot to the last position, and it keeps at least two of two or more.
pub proof fn lemma_hull_shape(count: nat, left: Orientation)
    ensures
        increasing_below(hull_of(count, left), count as int),
        hull_of(count, left).len() <= count,
        count >= 1 ==> hull_of(count, left).first() == 0 && hull_of(count, left).last() == count
            - 1,
        count >= 2 ==> hull_of(count, left).len() >= 2,
    decreases count,
{
    if count > 0 {
        let before = hull_of((count - 1) as nat, left);
        let kept = settle(before, count - 1, left);
        lemma_hull_shape((count - 1) as nat, left);
        lemma_settle(before, count - 1, left);
        let hull = hull_of(count, left);
        assert(hull == kept.push(count - 1));
        assert forall|k: int| 0 <= k < hull.len() implies 0 <= #[trigger] hull[k] < count by {
            if k < kept.len() {
                assert(hull[k] == before[k]);
            }
        }
        assert forall|j: int, k: int| 0 <= j < k < hull.len() implies hull[j] < hull[k] by {
            assert(hull[j] == before[j]);
            if k < kept.len() {
                assert(hull[k] == before[k]);
            }
        }
        if count >= 2 {
            assert(hull[0] == before[0]);
        }
    }
}

/// Any three consecutive positions of the hull make a left turn.
pub proof fn lemma_hull_turns_left(count: nat, left: Orientation, k: int)
    requires
        0 <= k,
        k + 2 < hull_of(count, left).len(),
    ensures
        left(hull_of(count, left)[k], hull_of(count, left)[k + 1], hull_of(count, left)[k + 2]),
    decreases count,
{
    if count > 0 {
        let before = hull_of((count - 1) as nat, left);
        let kept = settle(before, count - 1, left);
        lemma_settle(before, count - 1, left);
        let hull = hull_of(count, left);
        assert(hull == kept.push(count - 1));
        assert(hull[k] == before[k] && hull[k + 1] == before[k + 1]);
        if k + 2 < kept.len() {
            assert(hull[k + 2] == before[k + 2]);
            lemma_hull_turns_left((count - 1) as nat, left, k);
        }
    }
}

/// A position that the hull leaves out makes no left turn between some
/// earlier and some later position.
pub proof fn lemma_left_out_turns_right(count: nat, left: Orientation, d: int)
    requires
        0 <= d < count,
        !hull_of(count, left).contains(d),
    ensures
        exists|a: int, c: int| 0 <= a < d < c < count && !#[trigger] turns_left(left, a, d, c),
    decreases count,
{
    let before = hull_of((count - 1) as nat, left);
    let kept = settle(before, count - 1, left);
    let hull = hull_of(count, left);
    lemma_settle(before, count - 1, left);
    lemma_hull_shape((count - 1) as nat, left);
    assert(hull == kept.push(count - 1));
    if d == count - 1 {
        assert(hull[hull.len() - 1] == d);
    } else if before.contains(d) {
        let k = choose|k: int| 0 <= k < before.len() && before[k] == d;
        if k < kept.len() {
            assert(hull[k] == d);
        }
        lemma_settle_popped(before, count - 1, left, k);
        assert(0 <= before[k - 1] < d < count - 1 && !turns_left(
            left,
            before[k - 1],
            d,
            count - 1,
        ));
    } else {
        lemma_left_out_turns_right((count - 1) as nat, left, d);
    }
}

/// Where every three successive positions make a left turn, the hull keeps
/// all of them.
pub proof fn lemma_convex_chain_is_kept(count: nat, left: Orientation)
    requires
        forall|a: int, b: int, c: int|
            0 <= a && b == a + 1 && c == b + 1 && c < count ==> #[trigger] turns_left(
                left,
                a,
                b,
                c,
            ),
    ensures
        hull_of(count, left) == Seq::new(count, |i: int| i),
    decreases count,
{
    if count > 0 {
        lemma_convex_chain_is_kept((count - 1) as nat, left);
        let before = hull_of((count - 1) as nat, left);
        if before.len() >= 2 {
            assert(turns_left(left, count - 3, count - 2, count - 1));
        }
        assert(settle(before, count - 1, left) == before);
        assert(hull_of(count, left) =~= Seq::new(count, |i: int| i));
    }
}

/// `settle` keeps the two lowest entries where they make a left turn with
/// `next`.
pub proof fn lemma_settle_keeps_base(stack: Seq<int>, next: int, left: Orientation)
    requires
        stack.len() >= 2,
        left(stack[0], stack[1], next),
    ensures
        settle(stack, next, left).len() >= 2,
    decreases stack.len(),
{
    if stack.len() >= 3 && !left(stack[stack.len() - 2], stack[stack.len() - 1], next) {
        lemma_settle_keeps_base(stack.drop_last(), next, left);
    }
}

/// Where the pivot and the position after it make a left turn with every
/// later position, as they do when no later position lies in their
/// direction, the hull keeps both and has three entries at least.
pub proof fn lemma_hull_of_three(count: nat, left: Orientation)
    requires
        count >= 3,
        forall|c: int| 1 < c < count ==> #[trigger] turns_left(left, 0, 1, c),
    ensures
        hull_of(count, left).len() >= 3,
        hull_of(count, left)[0] == 0,
        hull_of(count, left)[1] == 1,
    decreases count,
{
    let before = hull_of((count - 1) as nat, left);
    let kept = settle(before, count - 1, left);
    if count == 3 {
        reveal_with_fuel(hull_of, 3);
        assert(hull_of(1, left) == seq![0int]);
        assert(before == seq![0int, 1]);
    } else {
        lemma_hull_of_three((count - 1) as nat, left);
    }
    assert(turns_left(left, 0, 1, count - 1));
    lemma_settle_keeps_base(before, count - 1, left);
    lemma_settle(before, count - 1, left);
    assert(kept[0] == before[0] && kept[1] == before[1]);
}


} // verus!
