use fieldchain::chain::{
    constrain_to_room, integrate, relax, simulate_chain, Chain, ChainLink,
};
use fieldchain::point::Point;

fn link(loc: (i64, i64), prev_loc: (i64, i64), len: i64, radius: i64, constrain: bool) -> ChainLink {
    ChainLink {
        loc: Point::new([loc.0, loc.1]),
        prev_loc: Point::new([prev_loc.0, prev_loc.1]),
        len,
        radius,
        constrain,
    }
}

fn room() -> (Point<i64, 2>, Point<i64, 2>) {
    (Point::new([-100, -100]), Point::new([100, 100]))
}

#[test]
fn the_link_after_the_anchor_takes_the_whole_correction() {
    let mut chain = Chain(vec![
        link((0, 0), (0, 0), 0, 0, true),
        link((20, 0), (20, 0), 10, 0, true),
    ]);
    simulate_chain(&mut chain, room(), 1);
    assert_eq!(chain.0[0].loc, Point::new([0, 0]));
    assert_eq!(chain.0[1].loc, Point::new([10, 0]));
}

#[test]
fn integration_keeps_the_velocity() {
    let mut chain = Chain(vec![
        link((0, 0), (0, 0), 0, 0, false),
        link((5, 0), (0, 0), 10, 0, false),
    ]);
    integrate(&mut chain);
    assert_eq!(chain.0[1].loc, Point::new([10, 0]));
    assert_eq!(chain.0[1].prev_loc, Point::new([5, 0]));
    let mut chain = Chain(vec![
        link((0, 0), (0, 0), 0, 0, false),
        link((5, 0), (0, 0), 10, 0, false),
    ]);
    simulate_chain(&mut chain, room(), 0);
    assert_eq!(chain.0[1].loc, Point::new([10, 0]));
    assert_eq!(chain.0[1].prev_loc, Point::new([5, 0]));
}

#[test]
fn integration_leaves_the_anchor() {
    let mut chain = Chain(vec![
        link((7, 7), (1, 1), 0, 0, false),
        link((5, -3), (4, -1), 10, 2, true),
        link((-2, 8), (-2, 8), 3, 1, false),
    ]);
    integrate(&mut chain);
    assert_eq!(chain.0[0], link((7, 7), (1, 1), 0, 0, false));
    assert_eq!(chain.0[1], link((6, -5), (5, -3), 10, 2, true));
    assert_eq!(chain.0[2], link((-2, 8), (-2, 8), 3, 1, false));
}

#[test]
fn relaxation_leaves_a_chain_at_rest() {
    let links = vec![
        link((0, 0), (0, 0), 0, 0, true),
        link((3, 4), (3, 4), 5, 0, true),
        link((3, 16), (3, 16), 12, 0, true),
    ];
    let mut chain = Chain(links.clone());
    relax(&mut chain);
    assert_eq!(chain.0, links);
    relax(&mut chain);
    assert_eq!(chain.0, links);
    simulate_chain(&mut chain, room(), 4);
    assert_eq!(chain.0, links);
}

#[test]
fn inner_pairs_share_the_correction() {
    let mut chain = Chain(vec![
        link((0, 0), (0, 0), 0, 0, false),
        link((0, 0), (0, 0), 7, 0, false),
        link((-9, 0), (-9, 0), 4, 0, false),
    ]);
    relax(&mut chain);
    // the first pair coincides and stays; the second is 9 apart and wants 4:
    // the correction of -5 is halved towards zero
    assert_eq!(chain.0[0].loc, Point::new([0, 0]));
    assert_eq!(chain.0[1].loc, Point::new([-2, 0]));
    assert_eq!(chain.0[2].loc, Point::new([-7, 0]));
    relax(&mut chain);
    assert_eq!(chain.0[0].loc, Point::new([0, 0]));
    assert_eq!(chain.0[1].loc, Point::new([-7, 0]));
    assert_eq!(chain.0[2].loc, Point::new([-7, 0]));
}

#[test]
fn a_tick_integrates_relaxes_and_clamps() {
    let mut chain = Chain(vec![
        link((0, 0), (0, 0), 0, 0, true),
        link((30, 40), (30, 40), 25, 0, true),
        link((30, 90), (30, 100), 20, 5, true),
        link((-60, 100), (-70, 100), 50, 10, true),
    ]);
    // the last two links move: (30, 90) came from (30, 100), (-60, 100) from (-70, 100)
    let mut expected_start = Chain(vec![
        link((0, 0), (0, 0), 0, 0, true),
        link((30, 40), (30, 40), 25, 0, true),
        link((30, 80), (30, 90), 20, 5, true),
        link((-50, 100), (-60, 100), 50, 10, true),
    ]);
    integrate(&mut chain);
    assert_eq!(chain.0, expected_start.0);
    relax(&mut expected_start);
    relax(&mut expected_start);
    relax(&mut expected_start);
    constrain_to_room(&mut expected_start, room());

    let mut ticked = Chain(vec![
        link((0, 0), (0, 0), 0, 0, true),
        link((30, 40), (30, 40), 25, 0, true),
        link((30, 90), (30, 100), 20, 5, true),
        link((-60, 100), (-70, 100), 50, 10, true),
    ]);
    simulate_chain(&mut ticked, room(), 3);
    assert_eq!(ticked.0, expected_start.0);
}

#[test]
fn a_tick_gives_the_expected_locations() {
    let mut chain = Chain(vec![
        link((0, 0), (0, 0), 0, 0, true),
        link((30, 40), (30, 40), 25, 0, true),
        link((30, 100), (30, 90), 20, 5, true),
        link((-70, 100), (-60, 100), 50, 10, true),
    ]);
    simulate_chain(&mut chain, room(), 3);
    assert_eq!(chain.0[0], link((0, 0), (0, 0), 0, 0, true));
    assert_eq!(chain.0[1], link((2, 35), (30, 40), 25, 0, true));
    assert_eq!(chain.0[2], link((-4, 58), (30, 100), 20, 5, true));
    assert_eq!(chain.0[3], link((-46, 89), (-70, 100), 50, 10, true));
}

#[test]
fn the_clamp_holds_constrained_links_only() {
    let mut chain = Chain(vec![
        link((90, 90), (90, 90), 0, 0, false),
        link((150, -150), (150, -150), 1000, 20, true),
        link((300, 0), (300, 0), 1000, 20, false),
        link((-95, 95), (-95, 95), 1000, 10, true),
        link((0, 0), (0, 0), 1000, 100, true),
    ]);
    constrain_to_room(&mut chain, room());
    assert_eq!(chain.0[0].loc, Point::new([90, 90]));
    assert_eq!(chain.0[1].loc, Point::new([80, -80]));
    assert_eq!(chain.0[2].loc, Point::new([300, 0]));
    assert_eq!(chain.0[3].loc, Point::new([-90, 90]));
    assert_eq!(chain.0[4].loc, Point::new([0, 0]));
    for l in &chain.0 {
        if l.constrain {
            assert!(-100 + l.radius <= l.loc[0] && l.loc[0] <= 100 - l.radius);
            assert!(-100 + l.radius <= l.loc[1] && l.loc[1] <= 100 - l.radius);
        }
    }
}

#[test]
fn short_chains_have_nothing_to_relax() {
    let mut empty = Chain(Vec::new());
    simulate_chain(&mut empty, room(), 5);
    assert!(empty.0.is_empty());
    let mut single = Chain(vec![link((500, 0), (0, 0), 3, 1, true)]);
    simulate_chain(&mut single, room(), 5);
    // the anchor is not integrated, but the room still holds it
    assert_eq!(single.0[0], link((99, 0), (0, 0), 3, 1, true));
}

#[test]
fn a_tick_at_the_limits() {
    let limit = 1_000_000_000;
    let wide = (Point::new([-limit, -limit]), Point::new([limit, limit]));
    let mut chain = Chain(vec![
        link((-limit, -limit), (limit, limit), 0, 0, false),
        link((limit, limit), (-limit, -limit), limit, 0, false),
        link((-limit, limit), (limit, -limit), limit, 0, false),
    ]);
    simulate_chain(&mut chain, wide, 50);
    assert_eq!(chain.0[0].loc, Point::new([-limit, -limit]));
}

#[test]
fn can_simulate_tells_when_a_tick_can_run() {
    let chain = Chain(vec![
        link((0, 0), (0, 0), 0, 0, true),
        link((20, 0), (20, 0), 10, 5, true),
    ]);
    assert!(chain.can_simulate(room(), 10));
    assert!(chain.can_simulate(room(), 1_000_000_000));
    assert!(!chain.can_simulate(room(), 1_000_000_001));
    // a room too small for the disc of the second link
    let narrow = (Point::new([-4, -100]), Point::new([4, 100]));
    assert!(!chain.can_simulate(narrow, 10));
    let exact = (Point::new([-5, -100]), Point::new([5, 100]));
    assert!(chain.can_simulate(exact, 10));
    // an unconstrained link does not need the room
    let free = Chain(vec![link((0, 0), (0, 0), 0, 50, false)]);
    assert!(free.can_simulate(narrow, 10));
    // locations, lengths and radii have limits
    let far = Chain(vec![link((1_000_000_001, 0), (0, 0), 0, 0, false)]);
    assert!(!far.can_simulate(room(), 10));
    let was_far = Chain(vec![link((0, 0), (0, -1_000_000_001), 0, 0, false)]);
    assert!(!was_far.can_simulate(room(), 10));
    let long_second = Chain(vec![
        link((0, 0), (0, 0), 0, 0, false),
        link((0, 0), (0, 0), 1_000_000_001, 0, false),
    ]);
    assert!(!long_second.can_simulate(room(), 10));
    let negative = Chain(vec![
        link((0, 0), (0, 0), 0, 0, false),
        link((0, 0), (0, 0), -1, 0, false),
    ]);
    assert!(!negative.can_simulate(room(), 10));
    // no tick reads the rest length of the anchor
    let anchor_only = Chain(vec![link((0, 0), (0, 0), -1, 0, false)]);
    assert!(anchor_only.can_simulate(room(), 10));
    // nor the radius of a link that is not constrained
    let wide_free = Chain(vec![
        link((0, 0), (0, 0), 0, -7, false),
        link((5, 0), (5, 0), 5, 2_000_000_000, false),
    ]);
    assert!(wide_free.can_simulate(room(), 10));
    let negative_radius = Chain(vec![link((0, 0), (0, 0), 0, -1, true)]);
    assert!(!negative_radius.can_simulate(room(), 10));
    let wide = (Point::new([-1_000_000_001, 0]), Point::new([0, 0]));
    assert!(!chain.can_simulate(wide, 10));
}

#[test]
fn diagonal_corrections_round_towards_zero() {
    // 30 and 40 apart on the axes, 50 in all, with a rest distance of 25
    let mut chain = Chain(vec![
        link((0, 0), (0, 0), 0, 0, false),
        link((30, 40), (30, 40), 25, 0, false),
        link((31, 47), (31, 47), 3, 0, false),
    ]);
    relax(&mut chain);
    // first pair: (-30, -40) * (25 - 50) / 50 = (15, 20), all of it on the second link
    // second pair: from (15, 20) to (31, 47) is (-16, -27), 31 apart;
    // (-16, -27) * (3 - 31) / 31 = (14, 24), half of it (7, 12) on each link
    assert_eq!(chain.0[0].loc, Point::new([0, 0]));
    assert_eq!(chain.0[1].loc, Point::new([22, 32]));
    assert_eq!(chain.0[2].loc, Point::new([24, 35]));
}

#[test]
fn a_tick_ignores_what_it_does_not_read() {
    // the rest length of the anchor and the radius of a free link
    let mut chain = Chain(vec![
        link((0, 0), (0, 0), i64::MIN, i64::MAX, false),
        link((20, 0), (20, 0), 10, i64::MIN, false),
    ]);
    assert!(chain.can_simulate(room(), 1));
    simulate_chain(&mut chain, room(), 1);
    assert_eq!(chain.0[0], link((0, 0), (0, 0), i64::MIN, i64::MAX, false));
    assert_eq!(chain.0[1], link((10, 0), (20, 0), 10, i64::MIN, false));
}

#[test]
fn a_free_link_may_leave_the_room() {
    let mut chain = Chain(vec![
        link((0, 0), (0, 0), 0, 0, false),
        link((90, 0), (50, 0), 10, 5, false),
        link((0, 90), (0, 50), 10, 5, true),
    ]);
    simulate_chain(&mut chain, room(), 0);
    assert_eq!(chain.0[0], link((0, 0), (0, 0), 0, 0, false));
    assert_eq!(chain.0[1], link((130, 0), (90, 0), 10, 5, false));
    assert_eq!(chain.0[2], link((0, 95), (0, 90), 10, 5, true));
}

#[test]
fn a_tick_leaves_a_standing_chain_at_rest() {
    let links = vec![
        link((0, 0), (0, 0), 0, 0, true),
        link((3, 4), (3, 4), 5, 2, true),
        link((3, 16), (3, 16), 12, 4, false),
        link((-2, 4), (-2, 4), 13, 1, true),
    ];
    let mut chain = Chain(links.clone());
    simulate_chain(&mut chain, room(), 7);
    assert_eq!(chain.0, links);
    simulate_chain(&mut chain, room(), 7);
    assert_eq!(chain.0, links);
}
