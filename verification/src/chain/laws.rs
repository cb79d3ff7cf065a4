//! What holds of every chain: how far relaxation can move a link, what it
//! leaves alone, and when a tick changes nothing.
use crate::arith::{
    is_isqrt, lemma_div_toward_zero_bound, lemma_div_toward_zero_scaled_bound,
    lemma_isqrt_exists, spec_div_toward_zero,
};
use crate::chain::{
    clamp_link, distance, in_room, lengths_valid, link_ready, point_within, positions_within,
    clamp_value, integrate_link, ready, relax_pair, relax_pass_upto, relax_times, room_holds,
    room_ready, spec_clamp, spec_integrate, spec_relax, spec_simulate, translation, LinkState,
    COORD_LIMIT,
};
use vstd::prelude::*;

verus! {

/// The rounded-down distance is at least the offset on either axis.
pub proof fn lemma_distance_bounds(a: (int, int), b: (int, int))
    ensures
        is_isqrt(
            (a.0 - b.0) * (a.0 - b.0) + (a.1 - b.1) * (a.1 - b.1),
            distance(a, b),
        ),
        -distance(a, b) <= a.0 - b.0 <= distance(a, b),
        -distance(a, b) <= a.1 - b.1 <= distance(a, b),
{
    let dx = a.0 - b.0;
    let dy = a.1 - b.1;
    assert(dx * dx + dy * dy >= 0) by (nonlinear_arith);
    lemma_isqrt_exists(dx * dx + dy * dy);
    let dist = distance(a, b);
    assert(-dist <= dx <= dist && -dist <= dy <= dist) by (nonlinear_arith)
        requires
            0 <= dist,
            dx * dx + dy * dy < (dist + 1) * (dist + 1),
    ;
}

/// The correction on one axis, for an offset `d` between two links at the
/// positive distance `dist` and a rest length that exceeds the distance by
/// `stretch`. When the links are too close the correction is at most
/// `stretch`; when they are too far apart it points against the offset and
/// is no longer than it.
pub proof fn lemma_correction_bounds(d: int, stretch: int, dist: int)
    requires
        dist > 0,
        -dist <= d <= dist,
        -dist <= stretch,
    ensures
        stretch >= 0 ==> -stretch <= spec_div_toward_zero(d * stretch, dist) <= stretch,
        stretch < 0 && d >= 0 ==> -d <= spec_div_toward_zero(d * stretch, dist) <= 0,
        stretch < 0 && d <= 0 ==> 0 <= spec_div_toward_zero(d * stretch, dist) <= -d,
{
    let n = d * stretch;
    if stretch >= 0 {
        assert(-(dist * stretch) <= n <= dist * stretch) by (nonlinear_arith)
            requires
                n == d * stretch,
                -dist <= d <= dist,
                stretch >= 0,
        ;
        lemma_div_toward_zero_scaled_bound(n, dist, stretch);
    } else if d >= 0 {
        assert(-(dist * d) <= n <= 0) by (nonlinear_arith)
            requires
                n == d * stretch,
                d >= 0,
                -dist <= stretch < 0,
        ;
        lemma_div_toward_zero_scaled_bound(n, dist, d);
        lemma_div_toward_zero_bound(n, dist);
    } else {
        assert(0 <= n <= dist * (-d)) by (nonlinear_arith)
            requires
                n == d * stretch,
                d <= 0,
                -dist <= stretch < 0,
        ;
        lemma_div_toward_zero_scaled_bound(n, dist, -d);
        lemma_div_toward_zero_bound(n, dist);
    }
}

/// A single coordinate after a correction stays within reach: a link that
/// starts within `own` of the origin, next to one within `other`, ends
/// within the larger of `own + COORD_LIMIT` and `other`.
pub open spec fn axis_after(v: int, own: int, other: int) -> bool {
    -own - COORD_LIMIT <= v <= own + COORD_LIMIT || -other <= v <= other
}

/// The correction of a pair moves neither link far: each ends within
/// `COORD_LIMIT` of where it was, or between the two.
pub proof fn lemma_relax_pair_bounds(chain: Seq<LinkState>, i: int, first: int, second: int)
    requires
        0 <= i,
        i + 1 < chain.len(),
        lengths_valid(chain),
        point_within(chain[i].loc, first),
        point_within(chain[i + 1].loc, second),
    ensures
        relax_pair(chain, i).len() == chain.len(),
        lengths_valid(relax_pair(chain, i)),
        forall|j: int|
            0 <= j < chain.len() && j != i && j != i + 1 ==> relax_pair(chain, i)[j] == chain[j],
        i == 0 ==> relax_pair(chain, i)[i] == chain[i],
        axis_after(relax_pair(chain, i)[i].loc.0, first, second),
        axis_after(relax_pair(chain, i)[i].loc.1, first, second),
        axis_after(relax_pair(chain, i)[i + 1].loc.0, second, first),
        axis_after(relax_pair(chain, i)[i + 1].loc.1, second, first),
{
    let a = chain[i];
    let b = chain[i + 1];
    let dist = distance(a.loc, b.loc);
    let t = translation(a, b);
    let h = (spec_div_toward_zero(t.0, 2), spec_div_toward_zero(t.1, 2));
    lemma_distance_bounds(a.loc, b.loc);
    assert(0 <= b.len <= COORD_LIMIT);
    if dist > 0 {
        lemma_correction_bounds(a.loc.0 - b.loc.0, b.len - dist, dist);
        lemma_correction_bounds(a.loc.1 - b.loc.1, b.len - dist, dist);
    }
    lemma_div_toward_zero_bound(t.0, 2);
    lemma_div_toward_zero_bound(t.1, 2);
    let next = relax_pair(chain, i);
    assert forall|j: int| 1 <= j < next.len() implies 0 <= (#[trigger] next[j]).len
        <= COORD_LIMIT by {
        assert(0 <= chain[j].len <= COORD_LIMIT);
    }
}

/// During a pass over a chain that started within `bound`, the links behind
/// pair `k` are within `bound + 2 * COORD_LIMIT`, link `k` is within
/// `bound + COORD_LIMIT`, and the links ahead have not moved.
pub open spec fn pass_bounds(chain: Seq<LinkState>, bound: int, k: int) -> bool {
    forall|j: int|
        0 <= j < chain.len() ==> point_within(
            #[trigger] chain[j].loc,
            if j < k {
                bound + 2 * COORD_LIMIT
            } else if j == k {
                bound + COORD_LIMIT
            } else {
                bound
            },
        )
}

/// The corrections of the first `k` pairs keep the shape of the chain and
/// the bounds of a pass.
pub proof fn lemma_relax_pass_bounds(chain: Seq<LinkState>, bound: int, k: int)
    requires
        lengths_valid(chain),
        positions_within(chain, bound),
        k <= chain.len() - 1,
    ensures
        relax_pass_upto(chain, k).len() == chain.len(),
        lengths_valid(relax_pass_upto(chain, k)),
        pass_bounds(relax_pass_upto(chain, k), bound, k),
        positions_within(relax_pass_upto(chain, k), bound + 2 * COORD_LIMIT),
        forall|j: int| k < j < chain.len() ==> relax_pass_upto(chain, k)[j] == chain[j],
        chain.len() > 0 ==> relax_pass_upto(chain, k)[0] == chain[0],
    decreases k,
{
    if k <= 0 {
        assert forall|j: int| 0 <= j < chain.len() implies point_within(
            #[trigger] chain[j].loc,
            bound + 2 * COORD_LIMIT,
        ) by {
            assert(point_within(chain[j].loc, bound));
        }
    } else {
        lemma_relax_pass_bounds(chain, bound, k - 1);
        let cur = relax_pass_upto(chain, k - 1);
        let next = relax_pair(cur, k - 1);
        assert(point_within(cur[k - 1].loc, bound + COORD_LIMIT));
        assert(point_within(cur[k].loc, bound));
        lemma_relax_pair_bounds(cur, k - 1, bound + COORD_LIMIT, bound);
        assert forall|j: int| 0 <= j < next.len() implies point_within(
            #[trigger] next[j].loc,
            if j < k {
                bound + 2 * COORD_LIMIT
            } else if j == k {
                bound + COORD_LIMIT
            } else {
                bound
            },
        ) by {
            if j != k - 1 && j != k {
                assert(next[j] == cur[j]);
                assert(point_within(cur[j].loc, if j < k - 1 {
                    bound + 2 * COORD_LIMIT
                } else if j == k - 1 {
                    bound + COORD_LIMIT
                } else {
                    bound
                }));
            }
        }
        assert forall|j: int| 0 <= j < next.len() implies point_within(
            #[trigger] next[j].loc,
            bound + 2 * COORD_LIMIT,
        ) by {
            assert(point_within(next[j].loc, if j < k {
                bound + 2 * COORD_LIMIT
            } else if j == k {
                bound + COORD_LIMIT
            } else {
                bound
            }));
        }
    }
}

/// A relaxation pass moves no link by more than twice `COORD_LIMIT` on an
/// axis, and leaves the anchor where it is.
pub proof fn lemma_relax_growth(chain: Seq<LinkState>, bound: int)
    requires
        lengths_valid(chain),
        positions_within(chain, bound),
    ensures
        spec_relax(chain).len() == chain.len(),
        lengths_valid(spec_relax(chain)),
        positions_within(spec_relax(chain), bound + 2 * COORD_LIMIT),
        chain.len() > 0 ==> spec_relax(chain)[0] == chain[0],
{
    lemma_relax_pass_bounds(chain, bound, chain.len() - 1);
}

/// After `n` relaxation passes every link is within `2 * n * COORD_LIMIT` of
/// the bound it started in, and the anchor has not moved.
pub proof fn lemma_relax_times_growth(chain: Seq<LinkState>, bound: int, n: int)
    requires
        lengths_valid(chain),
        positions_within(chain, bound),
        0 <= n,
    ensures
        relax_times(chain, n).len() == chain.len(),
        lengths_valid(relax_times(chain, n)),
        positions_within(relax_times(chain, n), bound + 2 * n * COORD_LIMIT),
        chain.len() > 0 ==> relax_times(chain, n)[0] == chain[0],
    decreases n,
{
    if n > 0 {
        lemma_relax_times_growth(chain, bound, n - 1);
        lemma_relax_growth(relax_times(chain, n - 1), bound + 2 * (n - 1) * COORD_LIMIT);
        assert(bound + 2 * (n - 1) * COORD_LIMIT + 2 * COORD_LIMIT == bound + 2 * n * COORD_LIMIT)
            by (nonlinear_arith);
    }
}

/// The correction of a pair changes locations only.
pub proof fn lemma_relax_pair_keeps_shape(chain: Seq<LinkState>, i: int)
    requires
        0 <= i,
        i + 1 < chain.len(),
    ensures
        relax_pair(chain, i).len() == chain.len(),
        forall|j: int|
            0 <= j < chain.len() ==> {
                &&& (#[trigger] relax_pair(chain, i)[j]).prev_loc == chain[j].prev_loc
                &&& relax_pair(chain, i)[j].len == chain[j].len
                &&& relax_pair(chain, i)[j].radius == chain[j].radius
                &&& relax_pair(chain, i)[j].constrain == chain[j].constrain
            },
{
}

/// Relaxation changes locations only.
pub proof fn lemma_relax_keeps_shape(chain: Seq<LinkState>, k: int)
    requires
        k <= chain.len() - 1,
    ensures
        relax_pass_upto(chain, k).len() == chain.len(),
        forall|j: int|
            0 <= j < chain.len() ==> {
                &&& (#[trigger] relax_pass_upto(chain, k)[j]).prev_loc == chain[j].prev_loc
                &&& relax_pass_upto(chain, k)[j].len == chain[j].len
                &&& relax_pass_upto(chain, k)[j].radius == chain[j].radius
                &&& relax_pass_upto(chain, k)[j].constrain == chain[j].constrain
            },
    decreases k,
{
    if k > 0 {
        lemma_relax_keeps_shape(chain, k - 1);
        lemma_relax_pair_keeps_shape(relax_pass_upto(chain, k - 1), k - 1);
    }
}

/// Any number of relaxation passes changes locations only.
pub proof fn lemma_relax_times_keeps_shape(chain: Seq<LinkState>, n: int)
    ensures
        relax_times(chain, n).len() == chain.len(),
        forall|j: int|
            0 <= j < chain.len() ==> {
                &&& (#[trigger] relax_times(chain, n)[j]).prev_loc == chain[j].prev_loc
                &&& relax_times(chain, n)[j].len == chain[j].len
                &&& relax_times(chain, n)[j].radius == chain[j].radius
                &&& relax_times(chain, n)[j].constrain == chain[j].constrain
            },
    decreases n,
{
    if n > 0 {
        lemma_relax_times_keeps_shape(chain, n - 1);
        lemma_relax_keeps_shape(relax_times(chain, n - 1), chain.len() - 1);
    }
}
/// Links `i` and `i + 1` are at their rest distance.
pub open spec fn pair_at_rest(chain: Seq<LinkState>, i: int) -> bool {
    distance(chain[i].loc, chain[i + 1].loc) == chain[i + 1].len
}

/// Every pair of neighbouring links is at its rest distance.
pub open spec fn at_rest(chain: Seq<LinkState>) -> bool {
    forall|i: int| 0 <= i < chain.len() - 1 ==> #[trigger] pair_at_rest(chain, i)
}

/// The correction of a pair that is at its rest distance changes nothing.
pub proof fn lemma_relax_pair_at_rest(chain: Seq<LinkState>, i: int)
    requires
        0 <= i,
        i + 1 < chain.len(),
        pair_at_rest(chain, i),
    ensures
        relax_pair(chain, i) == chain,
{
    let a = chain[i];
    let b = chain[i + 1];
    let dist = distance(a.loc, b.loc);
    assert((a.loc.0 - b.loc.0) * (b.len - dist) == 0) by (nonlinear_arith)
        requires
            b.len - dist == 0,
    ;
    assert((a.loc.1 - b.loc.1) * (b.len - dist) == 0) by (nonlinear_arith)
        requires
            b.len - dist == 0,
    ;
    if dist > 0 {
        lemma_div_toward_zero_bound(0, dist);
    }
    lemma_div_toward_zero_bound(0, 2);
    assert(translation(a, b) == (0int, 0int));
    assert(relax_pair(chain, i) =~= chain);
}

/// The corrections of the first `k` pairs of a chain at rest change
/// nothing.
pub proof fn lemma_relax_pass_at_rest(chain: Seq<LinkState>, k: int)
    requires
        at_rest(chain),
        k <= chain.len() - 1,
    ensures
        relax_pass_upto(chain, k) == chain,
    decreases k,
{
    if k > 0 {
        lemma_relax_pass_at_rest(chain, k - 1);
        assert(pair_at_rest(chain, k - 1));
        lemma_relax_pair_at_rest(chain, k - 1);
    }
}

/// Relaxation is idempotent on a chain at rest: once every pair is at its
/// rest distance, a pass, and any number of passes, leaves the chain as it
/// is.
pub proof fn lemma_relax_at_rest(chain: Seq<LinkState>, n: int)
    requires
        at_rest(chain),
    ensures
        spec_relax(chain) == chain,
        relax_times(chain, n) == chain,
    decreases n,
{
    lemma_relax_pass_at_rest(chain, chain.len() - 1);
    if n > 0 {
        lemma_relax_at_rest(chain, n - 1);
    }
}

/// The corrections of the first `k` pairs leave the anchor where it is.
pub proof fn lemma_relax_pass_keeps_anchor(chain: Seq<LinkState>, k: int)
    requires
        chain.len() > 0,
        k <= chain.len() - 1,
    ensures
        relax_pass_upto(chain, k).len() == chain.len(),
        relax_pass_upto(chain, k)[0] == chain[0],
    decreases k,
{
    if k > 0 {
        lemma_relax_pass_keeps_anchor(chain, k - 1);
    }
}

/// Relaxation never moves the anchor.
pub proof fn lemma_relax_times_keeps_anchor(chain: Seq<LinkState>, n: int)
    requires
        chain.len() > 0,
    ensures
        relax_times(chain, n).len() == chain.len(),
        relax_times(chain, n)[0] == chain[0],
    decreases n,
{
    if n > 0 {
        lemma_relax_times_keeps_anchor(chain, n - 1);
        lemma_relax_pass_keeps_anchor(relax_times(chain, n - 1), chain.len() - 1);
    }
}

/// Neither integration nor relaxation touches the anchor: after a tick it is
/// where its owner put it, moved into the room if it is constrained.
pub proof fn lemma_anchor_is_pinned(
    chain: Seq<LinkState>,
    room: ((int, int), (int, int)),
    iterations: int,
)
    requires
        chain.len() > 0,
    ensures
        spec_simulate(chain, room, iterations).len() == chain.len(),
        spec_simulate(chain, room, iterations)[0] == clamp_link(chain[0], room),
        !chain[0].constrain ==> spec_simulate(chain, room, iterations)[0] == chain[0],
{
    lemma_relax_times_keeps_anchor(spec_integrate(chain), iterations);
}

/// After the clamp the disc of every constrained link lies inside the room,
/// if the room is large enough for it, and every other link is where it
/// was. The clamp changes locations only.
pub proof fn lemma_clamp_holds(chain: Seq<LinkState>, room: ((int, int), (int, int)))
    ensures
        spec_clamp(chain, room).len() == chain.len(),
        forall|i: int|
            0 <= i < chain.len() && (#[trigger] chain[i]).constrain && room_holds(chain[i], room)
                ==> in_room(spec_clamp(chain, room)[i], room),
        forall|i: int|
            0 <= i < chain.len() && !(#[trigger] chain[i]).constrain ==> spec_clamp(
                chain,
                room,
            )[i] == chain[i],
        forall|i: int|
            0 <= i < chain.len() ==> {
                &&& (#[trigger] spec_clamp(chain, room)[i]).prev_loc == chain[i].prev_loc
                &&& spec_clamp(chain, room)[i].len == chain[i].len
                &&& spec_clamp(chain, room)[i].radius == chain[i].radius
                &&& spec_clamp(chain, room)[i].constrain == chain[i].constrain
            },
{
}

/// After a tick the disc of every constrained link lies inside the room.
pub proof fn lemma_simulate_holds(
    chain: Seq<LinkState>,
    room: ((int, int), (int, int)),
    iterations: int,
)
    requires
        forall|i: int|
            0 <= i < chain.len() && (#[trigger] chain[i]).constrain ==> room_holds(chain[i], room),
    ensures
        spec_simulate(chain, room, iterations).len() == chain.len(),
        forall|i: int|
            0 <= i < chain.len() && (#[trigger] spec_simulate(chain, room, iterations)[i]).constrain
                ==> in_room(spec_simulate(chain, room, iterations)[i], room),
{
    let relaxed = relax_times(spec_integrate(chain), iterations);
    lemma_relax_times_keeps_shape(spec_integrate(chain), iterations);
    lemma_clamp_holds(relaxed, room);
    assert forall|i: int|
        0 <= i < chain.len() && (#[trigger] spec_simulate(chain, room, iterations)[i]).constrain
        implies in_room(spec_simulate(chain, room, iterations)[i], room) by {
        assert(relaxed[i].radius == spec_integrate(chain)[i].radius);
        assert(relaxed[i].constrain == chain[i].constrain);
        assert(room_holds(chain[i], room));
        assert(room_holds(relaxed[i], room));
    }
}

/// A chain whose links after the anchor are all constrained is ready for the
/// next tick after every tick, as long as its owner keeps the anchor within
/// `COORD_LIMIT`.
pub proof fn lemma_simulate_keeps_ready(
    chain: Seq<LinkState>,
    room: ((int, int), (int, int)),
    iterations: int,
)
    requires
        ready(chain, room, iterations),
        forall|i: int| 1 <= i < chain.len() ==> (#[trigger] chain[i]).constrain,
    ensures
        ready(spec_simulate(chain, room, iterations), room, iterations),
{
    let integrated = spec_integrate(chain);
    let relaxed = relax_times(integrated, iterations);
    let next = spec_simulate(chain, room, iterations);
    lemma_relax_times_keeps_shape(integrated, iterations);
    lemma_clamp_holds(relaxed, room);
    assert forall|i: int| 0 <= i < next.len() implies link_ready(#[trigger] next[i], room) by {
        assert(link_ready(chain[i], room));
        assert(relaxed[i].radius == integrated[i].radius);
        assert(relaxed[i].prev_loc == integrated[i].prev_loc);
        if i == 0 {
            lemma_anchor_is_pinned(chain, room, iterations);
        } else {
            assert(chain[i].constrain);
            assert(relaxed[i].constrain);
            assert(room_ready(chain[i], room));
            assert(room_holds(relaxed[i], room));
            assert(in_room(next[i], room));
        }
    }
    assert forall|i: int| 1 <= i < next.len() implies 0 <= (#[trigger] next[i]).len
        <= COORD_LIMIT by {
        assert(0 <= chain[i].len <= COORD_LIMIT);
        assert(relaxed[i].len == integrated[i].len);
    }
}

/// No link of the chain is moving: each is where it was one tick ago.
pub open spec fn standing(chain: Seq<LinkState>) -> bool {
    forall|i: int| 0 <= i < chain.len() ==> (#[trigger] chain[i]).prev_loc == chain[i].loc
}

/// A tick changes nothing in a chain that stands still at rest inside the
/// room: when no link is moving, every pair is at its rest distance and the
/// disc of every constrained link lies inside the room, the chain after any
/// number of passes is the chain before, and so it is after the next tick.
pub proof fn lemma_simulate_at_rest(
    chain: Seq<LinkState>,
    room: ((int, int), (int, int)),
    iterations: int,
)
    requires
        standing(chain),
        at_rest(chain),
        forall|i: int|
            0 <= i < chain.len() && (#[trigger] chain[i]).constrain ==> in_room(chain[i], room),
    ensures
        spec_simulate(chain, room, iterations) == chain,
        spec_simulate(spec_simulate(chain, room, iterations), room, iterations) == chain,
{
    let integrated = spec_integrate(chain);
    assert forall|i: int| 0 <= i < chain.len() implies integrated[i] == chain[i] by {
        assert(chain[i].prev_loc == chain[i].loc);
    }
    assert(integrated =~= chain);
    lemma_relax_at_rest(chain, iterations);
    assert forall|i: int| 0 <= i < chain.len() implies spec_clamp(chain, room)[i] == chain[i] by {
        if chain[i].constrain {
            assert(in_room(chain[i], room));
        }
    }
    assert(spec_clamp(chain, room) =~= chain);
}

/// A tick without relaxation passes integrates and clamps: every link after
/// the anchor takes one Verlet step and is then held by the room if it is
/// constrained, and left where the step took it, inside the room or not, if
/// it is not. An unconstrained anchor keeps its location.
pub proof fn lemma_simulate_without_passes(chain: Seq<LinkState>, room: ((int, int), (int, int)))
    ensures
        spec_simulate(chain, room, 0).len() == chain.len(),
        forall|i: int|
            1 <= i < chain.len() ==> #[trigger] spec_simulate(chain, room, 0)[i] == clamp_link(
                integrate_link(chain[i]),
                room,
            ),
        forall|i: int|
            1 <= i < chain.len() && !(#[trigger] chain[i]).constrain ==> spec_simulate(
                chain,
                room,
                0,
            )[i] == integrate_link(chain[i]),
        chain.len() > 0 ==> spec_simulate(chain, room, 0)[0] == clamp_link(chain[0], room),
        chain.len() > 0 && !chain[0].constrain ==> spec_simulate(chain, room, 0)[0] == chain[0],
{
}

/// The clamp works on each axis by itself: after a tick each coordinate of a
/// constrained link is the coordinate it had after relaxation, moved into
/// the range that the room and the radius leave on that axis, and a
/// coordinate that was in range is kept.
pub proof fn lemma_simulate_clamps_each_axis(
    chain: Seq<LinkState>,
    room: ((int, int), (int, int)),
    iterations: int,
    i: int,
)
    requires
        0 <= i < chain.len(),
        chain[i].constrain,
    ensures
        spec_simulate(chain, room, iterations)[i].loc.0 == clamp_value(
            relax_times(spec_integrate(chain), iterations)[i].loc.0,
            room.0.0 + chain[i].radius,
            room.1.0 - chain[i].radius,
        ),
        spec_simulate(chain, room, iterations)[i].loc.1 == clamp_value(
            relax_times(spec_integrate(chain), iterations)[i].loc.1,
            room.0.1 + chain[i].radius,
            room.1.1 - chain[i].radius,
        ),
{
    lemma_relax_times_keeps_shape(spec_integrate(chain), iterations);
}

} // verus!
