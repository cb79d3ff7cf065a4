//! A chain of linked particles in a rectangular room.
//!
//! One tick moves every link but the first by its velocity (Verlet
//! integration), then pulls neighbouring links towards their rest distance a
//! number of times, then pushes every constrained link back into the room.
//! The first link is the anchor: its owner sets its location before a tick,
//! and neither integration nor relaxation moves it.
//!
//! Locations and lengths are fixed-point integers; distances are rounded
//! down and corrections are rounded towards zero.
use crate::arith::{
    div_toward_zero, isqrt, lemma_div_toward_zero_bound, spec_div_toward_zero, spec_isqrt,
};
use crate::chain::laws::{
    lemma_correction_bounds, lemma_distance_bounds, lemma_relax_pass_bounds,
    lemma_relax_times_growth, lemma_relax_times_keeps_shape,
};
use crate::point::{lemma_point_len, position, Point};
use vstd::prelude::*;

pub mod laws;

verus! {

broadcast use lemma_point_len;

/// The largest magnitude of a coordinate, a rest length or a radius at the
/// start of a tick.
pub const COORD_LIMIT: i64 = 1_000_000_000;

/// The largest number of relaxation passes in one tick.
pub const MAX_ITERATIONS: usize = 1_000_000_000;

/// The largest magnitude that a coordinate can reach during a tick: three
/// times `COORD_LIMIT` after integration, and twice `COORD_LIMIT` more with
/// every relaxation pass.
pub const WORK_LIMIT: i64 = 2_000_000_003_000_000_000;

/// One particle of a chain.
#[derive(Debug, Clone, Copy, PartialEq, Eq)]
pub struct ChainLink {
    /// Where the link is.
    pub loc: Point<i64, 2>,
    /// Where the link was one tick ago.
    pub prev_loc: Point<i64, 2>,
    /// The rest distance to the link before it in the chain.
    pub len: i64,
    /// The radius of the disc that stays inside the room.
    pub radius: i64,
    /// Whether the room holds the link.
    pub constrain: bool,
}

/// A chain: its links from the anchor to the free end.
pub struct Chain(pub Vec<ChainLink>);

/// The state of a link as mathematical values.
pub struct LinkState {
    pub loc: (int, int),
    pub prev_loc: (int, int),
    pub len: int,
    pub radius: int,
    pub constrain: bool,
}

impl View for ChainLink {
    type V = LinkState;

    open spec fn view(&self) -> LinkState {
        LinkState {
            loc: position(self.loc),
            prev_loc: position(self.prev_loc),
            len: self.len as int,
            radius: self.radius as int,
            constrain: self.constrain,
        }
    }
}

impl View for Chain {
    type V = Seq<LinkState>;

    open spec fn view(&self) -> Seq<LinkState> {
        self.0@.map_values(|link: ChainLink| link@)
    }
}

/// Both coordinates of `p` have a magnitude of at most `bound`.
pub open spec fn point_within(p: (int, int), bound: int) -> bool {
    -bound <= p.0 <= bound && -bound <= p.1 <= bound
}

/// Every link of `chain` lies within `bound` of the origin on both axes.
pub open spec fn positions_within(chain: Seq<LinkState>, bound: int) -> bool {
    forall|i: int| 0 <= i < chain.len() ==> point_within(#[trigger] chain[i].loc, bound)
}

/// Every rest length of `chain` that a tick reads (that of every link but
/// the anchor) is between zero and `COORD_LIMIT`.
pub open spec fn lengths_valid(chain: Seq<LinkState>) -> bool {
    forall|i: int| 1 <= i < chain.len() ==> 0 <= (#[trigger] chain[i]).len <= COORD_LIMIT
}

/// `link` with its location moved by `(dx, dy)`.
pub open spec fn moved(link: LinkState, dx: int, dy: int) -> LinkState {
    LinkState { loc: (link.loc.0 + dx, link.loc.1 + dy), ..link }
}

/// A link after one Verlet step: it keeps its velocity, and remembers where
/// it was.
pub open spec fn integrate_link(link: LinkState) -> LinkState {
    LinkState {
        loc: (
            link.loc.0 + (link.loc.0 - link.prev_loc.0),
            link.loc.1 + (link.loc.1 - link.prev_loc.1),
        ),
        prev_loc: link.loc,
        ..link
    }
}

/// A chain after integration: every link but the anchor takes one Verlet
/// step.
pub open spec fn spec_integrate(chain: Seq<LinkState>) -> Seq<LinkState> {
    Seq::new(
        chain.len(),
        |i: int|
            if i == 0 {
                chain[i]
            } else {
                integrate_link(chain[i])
            },
    )
}

/// The distance between two locations, rounded down.
pub open spec fn distance(a: (int, int), b: (int, int)) -> int {
    spec_isqrt((a.0 - b.0) * (a.0 - b.0) + (a.1 - b.1) * (a.1 - b.1))
}

/// The correction that brings link `b` to its rest distance from the link
/// `a` before it: the offset from `b` to `a`, scaled by
/// `(len - distance) / distance`, and nothing when the two coincide.
pub open spec fn translation(a: LinkState, b: LinkState) -> (int, int) {
    let dist = distance(a.loc, b.loc);
    if dist > 0 {
        (
            spec_div_toward_zero((a.loc.0 - b.loc.0) * (b.len - dist), dist),
            spec_div_toward_zero((a.loc.1 - b.loc.1) * (b.len - dist), dist),
        )
    } else {
        (0, 0)
    }
}

/// A chain after the correction of links `i` and `i + 1`. Next to the anchor
/// the second link takes the whole correction; elsewhere each link takes
/// half of it.
pub open spec fn relax_pair(chain: Seq<LinkState>, i: int) -> Seq<LinkState> {
    let t = translation(chain[i], chain[i + 1]);
    if i == 0 {
        chain.update(1, moved(chain[1], -t.0, -t.1))
    } else {
        let h = (spec_div_toward_zero(t.0, 2), spec_div_toward_zero(t.1, 2));
        chain.update(i, moved(chain[i], h.0, h.1)).update(
            i + 1,
            moved(chain[i + 1], -h.0, -h.1),
        )
    }
}

/// A chain after the correction of its first `k` pairs, in order.
pub open spec fn relax_pass_upto(chain: Seq<LinkState>, k: int) -> Seq<LinkState>
    decreases k,
{
    if k <= 0 {
        chain
    } else {
        relax_pair(relax_pass_upto(chain, k - 1), k - 1)
    }
}

/// A chain after one relaxation pass over all its pairs.
pub open spec fn spec_relax(chain: Seq<LinkState>) -> Seq<LinkState> {
    relax_pass_upto(chain, chain.len() - 1)
}

/// A chain after `n` relaxation passes.
pub open spec fn relax_times(chain: Seq<LinkState>, n: int) -> Seq<LinkState>
    decreases n,
{
    if n <= 0 {
        chain
    } else {
        spec_relax(relax_times(chain, n - 1))
    }
}

/// `v` moved into the range from `lo` to `hi`.
pub open spec fn clamp_value(v: int, lo: int, hi: int) -> int {
    if v < lo {
        lo
    } else if v > hi {
        hi
    } else {
        v
    }
}

/// A link after the clamp: a constrained link is a disc that lies inside the
/// room, any other link is left alone.
pub open spec fn clamp_link(link: LinkState, room: ((int, int), (int, int))) -> LinkState {
    if link.constrain {
        LinkState {
            loc: (
                clamp_value(link.loc.0, room.0.0 + link.radius, room.1.0 - link.radius),
                clamp_value(link.loc.1, room.0.1 + link.radius, room.1.1 - link.radius),
            ),
            ..link
        }
    } else {
        link
    }
}

/// A chain after the clamp of every link.
pub open spec fn spec_clamp(chain: Seq<LinkState>, room: ((int, int), (int, int))) -> Seq<
    LinkState,
> {
    chain.map_values(|link: LinkState| clamp_link(link, room))
}

/// A chain after one tick: integration, `iterations` relaxation passes, and
/// the clamp.
pub open spec fn spec_simulate(
    chain: Seq<LinkState>,
    room: ((int, int), (int, int)),
    iterations: int,
) -> Seq<LinkState> {
    spec_clamp(relax_times(spec_integrate(chain), iterations), room)
}

/// The disc of `link` lies inside `room`.
pub open spec fn in_room(link: LinkState, room: ((int, int), (int, int))) -> bool {
    &&& room.0.0 + link.radius <= link.loc.0 <= room.1.0 - link.radius
    &&& room.0.1 + link.radius <= link.loc.1 <= room.1.1 - link.radius
}

/// The room is large enough for the disc of `link`.
pub open spec fn room_holds(link: LinkState, room: ((int, int), (int, int))) -> bool {
    &&& room.0.0 + link.radius <= room.1.0 - link.radius
    &&& room.0.1 + link.radius <= room.1.1 - link.radius
}

/// The radius of `link` is between zero and `COORD_LIMIT`, and the room is
/// large enough for its disc.
pub open spec fn room_ready(link: LinkState, room: ((int, int), (int, int))) -> bool {
    0 <= link.radius <= COORD_LIMIT && room_holds(link, room)
}

/// What a tick asks of a link: its locations stay within `COORD_LIMIT`, and
/// when it is constrained, so does its radius, and the room is large enough
/// for it.
pub open spec fn link_ready(link: LinkState, room: ((int, int), (int, int))) -> bool {
    &&& point_within(link.loc, COORD_LIMIT as int)
    &&& point_within(link.prev_loc, COORD_LIMIT as int)
    &&& link.constrain ==> room_ready(link, room)
}

/// What a tick asks of its inputs: every link is ready, every rest length
/// that it reads is valid, the corners of the room stay within
/// `COORD_LIMIT`, and there are at most `MAX_ITERATIONS` passes.
pub open spec fn ready(
    chain: Seq<LinkState>,
    room: ((int, int), (int, int)),
    iterations: int,
) -> bool {
    &&& forall|i: int| 0 <= i < chain.len() ==> link_ready(#[trigger] chain[i], room)
    &&& lengths_valid(chain)
    &&& point_within(room.0, COORD_LIMIT as int)
    &&& point_within(room.1, COORD_LIMIT as int)
    &&& iterations <= MAX_ITERATIONS
}
/// The room as mathematical values: its lowest and its highest corner.
pub open spec fn room_of(room_bounds: (Point<i64, 2>, Point<i64, 2>)) -> ((int, int), (int, int)) {
    (position(room_bounds.0), position(room_bounds.1))
}

/// The state of a chain in which link `i` has been replaced.
proof fn lemma_view_update(links: Seq<ChainLink>, i: int, link: ChainLink)
    requires
        0 <= i < links.len(),
    ensures
        links.update(i, link).map_values(|l: ChainLink| l@) == links.map_values(
            |l: ChainLink| l@,
        ).update(i, link@),
{
    assert(links.update(i, link).map_values(|l: ChainLink| l@) =~= links.map_values(
        |l: ChainLink| l@,
    ).update(i, link@));
}

/// The distance between two locations, rounded down.
fn distance_between(a: Point<i64, 2>, b: Point<i64, 2>) -> (dist: i64)
    requires
        point_within(position(a), WORK_LIMIT as int),
        point_within(position(b), WORK_LIMIT as int),
    ensures
        dist == distance(position(a), position(b)),
        0 <= dist,
{
    let delta = a - b;
    let dx = delta[0] as i128;
    let dy = delta[1] as i128;
    assert(dx * dx + dy * dy < 0x4000_0000_0000_0000_0000_0000_0000_0000 && dx * dx >= 0 && dy
        * dy >= 0 && dx * dx < 0x2000_0000_0000_0000_0000_0000_0000_0000 && dy * dy
        < 0x2000_0000_0000_0000_0000_0000_0000_0000) by (nonlinear_arith)
        requires
            -0x4000_0000_0000_0000 < dx < 0x4000_0000_0000_0000,
            -0x4000_0000_0000_0000 < dy < 0x4000_0000_0000_0000,
    ;
    let squared = (dx * dx + dy * dy) as u128;
    let root = isqrt(squared);
    assert(root < 0x8000_0000_0000_0000) by (nonlinear_arith)
        requires
            root * root <= squared,
            squared < 0x4000_0000_0000_0000_0000_0000_0000_0000,
    ;
    root as i64
}

/// The correction that brings `b` to its rest distance from `a`.
fn pair_translation(a: ChainLink, b: ChainLink) -> (t: Point<i64, 2>)
    requires
        point_within(a@.loc, WORK_LIMIT as int),
        point_within(b@.loc, WORK_LIMIT as int),
        0 <= b.len <= COORD_LIMIT,
    ensures
        position(t) == translation(a@, b@),
{
    let dist = distance_between(a.loc, b.loc);
    if dist > 0 {
        let stretch = (b.len - dist) as i128;
        let delta = a.loc - b.loc;
        let dx = delta[0] as i128;
        let dy = delta[1] as i128;
        proof {
            lemma_distance_bounds(a@.loc, b@.loc);
            lemma_correction_bounds(dx as int, stretch as int, dist as int);
            lemma_correction_bounds(dy as int, stretch as int, dist as int);
            assert(-0x4000_0000_0000_0000_0000_0000_0000_0000 < dx * stretch
                < 0x4000_0000_0000_0000_0000_0000_0000_0000
                && -0x4000_0000_0000_0000_0000_0000_0000_0000 < dy * stretch
                < 0x4000_0000_0000_0000_0000_0000_0000_0000) by (nonlinear_arith)
                requires
                    -0x4000_0000_0000_0000 < dx < 0x4000_0000_0000_0000,
                    -0x4000_0000_0000_0000 < dy < 0x4000_0000_0000_0000,
                    -0x8000_0000_0000_0000 < stretch < 0x8000_0000_0000_0000,
            ;
        }
        let tx = div_toward_zero(dx * stretch, dist as i128);
        let ty = div_toward_zero(dy * stretch, dist as i128);
        Point::new([tx as i64, ty as i64])
    } else {
        Point::new([0, 0])
    }
}

/// Moves every link but the anchor by its velocity: the new location is as
/// far from the old one as the old one is from the one before, and the old
/// location is remembered.
pub fn integrate(chain: &mut Chain)
    requires
        forall|i: int|
            0 <= i < old(chain)@.len() ==> point_within(
                (#[trigger] old(chain)@[i]).loc,
                WORK_LIMIT as int,
            ) && point_within(old(chain)@[i].prev_loc, WORK_LIMIT as int),
    ensures
        final(chain)@ == spec_integrate(old(chain)@),
{
    let n = chain.0.len();
    let mut i: usize = 1;
    while i < n
        invariant
            1 <= i,
            n == chain.0@.len(),
            n == old(chain)@.len(),
            forall|j: int|
                0 <= j < n ==> point_within((#[trigger] old(chain)@[j]).loc, WORK_LIMIT as int)
                    && point_within(old(chain)@[j].prev_loc, WORK_LIMIT as int),
            forall|j: int| 0 <= j < n && j < i ==> chain@[j] == spec_integrate(old(chain)@)[j],
            forall|j: int| i <= j < n ==> chain@[j] == old(chain)@[j],
        decreases n - i,
    {
        let link = chain.0[i];
        assert(link@ == old(chain)@[i as int]);
        let velocity = link.loc - link.prev_loc;
        let moved = ChainLink {
            loc: link.loc + velocity,
            prev_loc: link.loc,
            len: link.len,
            radius: link.radius,
            constrain: link.constrain,
        };
        proof {
            lemma_view_update(chain.0@, i as int, moved);
        }
        chain.0[i] = moved;
        i = i + 1;
    }
    assert(chain@ =~= spec_integrate(old(chain)@));
}

/// One relaxation pass: corrects every pair of neighbouring links once, from
/// the anchor to the free end.
pub fn relax(chain: &mut Chain)
    requires
        lengths_valid(old(chain)@),
        positions_within(old(chain)@, WORK_LIMIT - 2 * COORD_LIMIT),
    ensures
        final(chain)@ == spec_relax(old(chain)@),
{
    let n = chain.0.len();
    if n < 2 {
        return ;
    }
    let mut i: usize = 0;
    while i < n - 1
        invariant
            2 <= n,
            i <= n - 1,
            n == chain.0@.len(),
            n == old(chain)@.len(),
            lengths_valid(old(chain)@),
            positions_within(old(chain)@, WORK_LIMIT - 2 * COORD_LIMIT),
            chain@ == relax_pass_upto(old(chain)@, i as int),
        decreases n - i,
    {
        let ghost cur = chain@;
        let ghost next = relax_pair(cur, i as int);
        proof {
            lemma_relax_pass_bounds(old(chain)@, WORK_LIMIT - 2 * COORD_LIMIT, i as int);
            lemma_relax_pass_bounds(old(chain)@, WORK_LIMIT - 2 * COORD_LIMIT, i + 1);
            assert(point_within(cur[i as int].loc, WORK_LIMIT as int));
            assert(point_within(cur[i + 1].loc, WORK_LIMIT as int));
            assert(point_within(next[i as int].loc, WORK_LIMIT as int));
            assert(point_within(next[i + 1].loc, WORK_LIMIT as int));
            assert(0 <= cur[i + 1].len <= COORD_LIMIT);
        }
        let a = chain.0[i];
        let b = chain.0[i + 1];
        assert(a@ == cur[i as int]);
        assert(b@ == cur[i + 1]);
        let translation = pair_translation(a, b);
        if i == 0 {
            let second = ChainLink {
                loc: b.loc - translation,
                prev_loc: b.prev_loc,
                len: b.len,
                radius: b.radius,
                constrain: b.constrain,
            };
            proof {
                lemma_view_update(chain.0@, i + 1, second);
            }
            chain.0[i + 1] = second;
            assert(chain@ =~= next);
        } else {
            proof {
                lemma_div_toward_zero_bound(position(translation).0, 2);
                lemma_div_toward_zero_bound(position(translation).1, 2);
            }
            let half = translation / 2;
            assert(position(half) == (
                spec_div_toward_zero(position(translation).0, 2),
                spec_div_toward_zero(position(translation).1, 2),
            ));
            let first = ChainLink {
                loc: a.loc + half,
                prev_loc: a.prev_loc,
                len: a.len,
                radius: a.radius,
                constrain: a.constrain,
            };
            let second = ChainLink {
                loc: b.loc - half,
                prev_loc: b.prev_loc,
                len: b.len,
                radius: b.radius,
                constrain: b.constrain,
            };
            proof {
                lemma_view_update(chain.0@, i as int, first);
                lemma_view_update(chain.0@.update(i as int, first), i + 1, second);
            }
            chain.0[i] = first;
            chain.0[i + 1] = second;
            assert(chain@ =~= next);
        }
        i = i + 1;
    }
}

/// `v` moved into the range from `lo` to `hi`.
fn clamp(v: i64, lo: i64, hi: i64) -> (clamped: i64)
    requires
        lo <= hi,
    ensures
        clamped == clamp_value(v as int, lo as int, hi as int),
{
    if v < lo {
        lo
    } else if v > hi {
        hi
    } else {
        v
    }
}

/// Pushes every constrained link back into the room, so that its disc lies
/// inside; other links stay where they are.
pub fn constrain_to_room(chain: &mut Chain, room_bounds: (Point<i64, 2>, Point<i64, 2>))
    requires
        point_within(room_of(room_bounds).0, COORD_LIMIT as int),
        point_within(room_of(room_bounds).1, COORD_LIMIT as int),
        forall|i: int|
            0 <= i < old(chain)@.len() && (#[trigger] old(chain)@[i]).constrain ==> room_ready(
                old(chain)@[i],
                room_of(room_bounds),
            ),
    ensures
        final(chain)@ == spec_clamp(old(chain)@, room_of(room_bounds)),
        final(chain)@.len() == old(chain)@.len(),
        forall|i: int|
            0 <= i < final(chain)@.len() && (#[trigger] final(chain)@[i]).constrain ==> in_room(
                final(chain)@[i],
                room_of(room_bounds),
            ),
        forall|i: int|
            0 <= i < final(chain)@.len() && !(#[trigger] old(chain)@[i]).constrain ==> final(chain)@[i] == old(chain)@[i],
{
    let ghost room = room_of(room_bounds);
    let n = chain.0.len();
    let mut i: usize = 0;
    while i < n
        invariant
            i <= n,
            n == chain.0@.len(),
            n == old(chain)@.len(),
            room == room_of(room_bounds),
            point_within(room.0, COORD_LIMIT as int),
            point_within(room.1, COORD_LIMIT as int),
            forall|j: int|
                0 <= j < n && (#[trigger] old(chain)@[j]).constrain ==> room_ready(
                    old(chain)@[j],
                    room,
                ),
            forall|j: int| 0 <= j < i ==> chain@[j] == clamp_link(old(chain)@[j], room),
            forall|j: int| i <= j < n ==> chain@[j] == old(chain)@[j],
        decreases n - i,
    {
        let link = chain.0[i];
        assert(link@ == old(chain)@[i as int]);
        if link.constrain {
            let rad_vec = Point::new([link.radius, link.radius]);
            let min_bound = room_bounds.0 + rad_vec;
            let max_bound = room_bounds.1 - rad_vec;
            let held = ChainLink {
                loc: Point::new(
                    [
                        clamp(link.loc[0], min_bound[0], max_bound[0]),
                        clamp(link.loc[1], min_bound[1], max_bound[1]),
                    ],
                ),
                prev_loc: link.prev_loc,
                len: link.len,
                radius: link.radius,
                constrain: link.constrain,
            };
            proof {
                lemma_view_update(chain.0@, i as int, held);
            }
            chain.0[i] = held;
        }
        i = i + 1;
    }
    assert(chain@ =~= spec_clamp(old(chain)@, room));
}

/// Whether both coordinates of `p` have a magnitude of at most `COORD_LIMIT`.
fn within_coord_limit(p: Point<i64, 2>) -> (within: bool)
    ensures
        within == point_within(position(p), COORD_LIMIT as int),
{
    -COORD_LIMIT <= p[0] && p[0] <= COORD_LIMIT && -COORD_LIMIT <= p[1] && p[1] <= COORD_LIMIT
}

/// Whether a tick asks no more of `link` than it offers.
fn link_is_ready(link: &ChainLink, room_bounds: (Point<i64, 2>, Point<i64, 2>)) -> (is_ready: bool)
    requires
        point_within(room_of(room_bounds).0, COORD_LIMIT as int),
        point_within(room_of(room_bounds).1, COORD_LIMIT as int),
    ensures
        is_ready == link_ready(link@, room_of(room_bounds)),
{
    if !(within_coord_limit(link.loc) && within_coord_limit(link.prev_loc)) {
        return false;
    }
    if !link.constrain {
        return true;
    }
    if link.radius < 0 || link.radius > COORD_LIMIT {
        return false;
    }
    room_bounds.0[0] + link.radius <= room_bounds.1[0] - link.radius && room_bounds.0[1]
        + link.radius <= room_bounds.1[1] - link.radius
}

impl Chain {
    /// Whether `simulate_chain` can run on this chain with these inputs.
    pub fn can_simulate(
        &self,
        room_bounds: (Point<i64, 2>, Point<i64, 2>),
        chain_constraint_iterations: usize,
    ) -> (can: bool)
        ensures
            can == ready(self@, room_of(room_bounds), chain_constraint_iterations as int),
    {
        if chain_constraint_iterations > MAX_ITERATIONS {
            return false;
        }
        if !(within_coord_limit(room_bounds.0) && within_coord_limit(room_bounds.1)) {
            return false;
        }
        let n = self.0.len();
        let mut i: usize = 0;
        while i < n
            invariant
                i <= n,
                n == self.0@.len(),
                point_within(room_of(room_bounds).0, COORD_LIMIT as int),
                point_within(room_of(room_bounds).1, COORD_LIMIT as int),
                forall|j: int| 0 <= j < i ==> link_ready(#[trigger] self@[j], room_of(room_bounds)),
                forall|j: int| 1 <= j < i ==> 0 <= (#[trigger] self@[j]).len <= COORD_LIMIT,
            decreases n - i,
        {
            let link = &self.0[i];
            assert(link@ == self@[i as int]);
            if !link_is_ready(link, room_bounds) {
                assert(!link_ready(self@[i as int], room_of(room_bounds)));
                return false;
            }
            if i >= 1 && (link.len < 0 || link.len > COORD_LIMIT) {
                assert(!(0 <= self@[i as int].len <= COORD_LIMIT));
                return false;
            }
            i = i + 1;
        }
        true
    }
}

/// Advances a chain by one tick inside an axis-aligned room: integration,
/// `chain_constraint_iterations` relaxation passes, and the clamp. The owner
/// of the chain sets the location of the anchor before the call.
pub fn simulate_chain(
    chain: &mut Chain,
    room_bounds: (Point<i64, 2>, Point<i64, 2>),
    chain_constraint_iterations: usize,
)
    requires
        ready(old(chain)@, room_of(room_bounds), chain_constraint_iterations as int),
    ensures
        final(chain)@ == spec_simulate(
            old(chain)@,
            room_of(room_bounds),
            chain_constraint_iterations as int,
        ),
        final(chain)@.len() == old(chain)@.len(),
        forall|i: int|
            0 <= i < final(chain)@.len() && (#[trigger] final(chain)@[i]).constrain ==> in_room(
                final(chain)@[i],
                room_of(room_bounds),
            ),
{
    let ghost room = room_of(room_bounds);
    assert forall|i: int| 0 <= i < chain@.len() implies point_within(
        (#[trigger] chain@[i]).loc,
        WORK_LIMIT as int,
    ) && point_within(chain@[i].prev_loc, WORK_LIMIT as int) by {
        assert(link_ready(chain@[i], room));
    }
    integrate(chain);
    let ghost integrated = chain@;
    proof {
        assert forall|i: int| 0 <= i < integrated.len() implies point_within(
            (#[trigger] integrated[i]).loc,
            3 * COORD_LIMIT,
        ) && integrated[i].len == old(chain)@[i].len && integrated[i].radius == old(chain)@[i].radius
            && integrated[i].constrain == old(chain)@[i].constrain by {
            assert(link_ready(old(chain)@[i], room));
        }
        assert forall|i: int| 1 <= i < integrated.len() implies 0 <= (
        #[trigger] integrated[i]).len <= COORD_LIMIT by {
            assert(0 <= old(chain)@[i].len <= COORD_LIMIT);
        }
    }
    let mut pass: usize = 0;
    while pass < chain_constraint_iterations
        invariant
            pass <= chain_constraint_iterations <= MAX_ITERATIONS,
            lengths_valid(integrated),
            positions_within(integrated, 3 * COORD_LIMIT),
            chain@ == relax_times(integrated, pass as int),
        decreases chain_constraint_iterations - pass,
    {
        proof {
            lemma_relax_times_growth(integrated, 3 * COORD_LIMIT, pass as int);
        }
        relax(chain);
        pass = pass + 1;
    }
    proof {
        lemma_relax_times_growth(integrated, 3 * COORD_LIMIT, pass as int);
        lemma_relax_times_keeps_shape(integrated, pass as int);
        assert forall|i: int| 0 <= i < chain@.len() && (#[trigger] chain@[i]).constrain implies room_ready(
            chain@[i],
            room,
        ) by {
            assert(link_ready(old(chain)@[i], room));
        }
    }
    constrain_to_room(chain, room_bounds);
}

} // verus!
