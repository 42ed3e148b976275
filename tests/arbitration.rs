use wolfpack::counts::PlayerPackCounts;
use wolfpack::geometry::{distance_squared, heading, isqrt, Point, HALF_PI_MICRO, PI_MICRO, QUARTER_PI_MICRO};
use wolfpack::spawning::free_spawn_index;
use wolfpack::minipack::{
    is_pack_spawn, pack_spawn_points, MiniPack, MiniPacks, PackMember, FOLLOW_DISTANCE_INCR,
    STARTING_FOLLOW_DISTANCE,
};

fn pack_at(x: i64, z: i64) -> MiniPack {
    MiniPack::new(Point::new(x, z), 0, Vec::new())
}

fn no_players() -> Vec<Option<Point>> {
    vec![None; 256]
}

#[test]
fn distance_squared_is_exact() {
    assert_eq!(distance_squared(Point::new(0, 0), Point::new(3000, -4000)), 25_000_000);
    assert_eq!(distance_squared(Point::new(-7, 2), Point::new(-7, 2)), 0);
}

#[test]
fn isqrt_rounds_down() {
    assert_eq!(isqrt(0), 0);
    assert_eq!(isqrt(24), 4);
    assert_eq!(isqrt(25), 5);
    assert_eq!(isqrt(8_000_000_000_000_000_000), 2_828_427_124);
}

#[test]
fn heading_on_axes_and_diagonals() {
    assert_eq!(heading(1000, 0), 0);
    assert_eq!(heading(0, 1000), HALF_PI_MICRO);
    assert_eq!(heading(0, -1000), -HALF_PI_MICRO);
    assert_eq!(heading(-1000, 0), -PI_MICRO);
    assert_eq!(heading(1000, 1000), QUARTER_PI_MICRO);
    assert_eq!(heading(1000, -1000), -QUARTER_PI_MICRO);
    assert_eq!(heading(-1000, -1000), QUARTER_PI_MICRO - PI_MICRO);
}

#[test]
fn heading_is_close_to_atan() {
    let r = heading(2000, 1000) as f64 / 1e6;
    assert!((r - 0.5f64.atan()).abs() < 0.002);
    let r = heading(1000, 3000) as f64 / 1e6;
    assert!((r - 3.0f64.atan()).abs() < 0.002);
}

#[test]
fn pickup_within_threshold() {
    let mut pack = pack_at(0, 0);
    let mut counts = PlayerPackCounts::new();
    pack.player_server_update(1, Point::new(1000, 0), &mut counts);
    assert_eq!(pack.owner, Some(1));
    assert_eq!(counts.get(1), 1);
    assert_eq!(pack.trailing_player_distance, STARTING_FOLLOW_DISTANCE + FOLLOW_DISTANCE_INCR);
}

#[test]
fn no_pickup_at_threshold() {
    let mut pack = pack_at(0, 0);
    let mut counts = PlayerPackCounts::new();
    pack.player_server_update(1, Point::new(1500, 0), &mut counts);
    assert_eq!(pack.owner, None);
    pack.player_server_update(2, Point::new(0, -2000), &mut counts);
    assert_eq!(pack.owner, None);
    assert_eq!(counts.get(1), 0);
    assert_eq!(counts.get(2), 0);
}

#[test]
fn steal_needs_strictly_more_packs() {
    let mut counts = PlayerPackCounts::new();
    let mut a = pack_at(0, 0);
    let mut b = pack_at(10_000, 0);
    let mut c = pack_at(20_000, 0);
    a.player_server_update(1, Point::new(0, 0), &mut counts);
    b.player_server_update(2, Point::new(10_000, 0), &mut counts);
    // equal counts: no steal
    a.player_server_update(2, Point::new(50_000, 0), &mut counts);
    assert_eq!(a.owner, Some(1));
    assert_eq!(counts.get(1), 1);
    assert_eq!(counts.get(2), 1);
    c.player_server_update(2, Point::new(20_000, 0), &mut counts);
    assert_eq!(counts.get(2), 2);
    // fewer: no steal
    b.player_server_update(1, Point::new(0, 0), &mut counts);
    assert_eq!(b.owner, Some(2));
    // more: steal, far away as well
    a.player_server_update(2, Point::new(90_000, 0), &mut counts);
    assert_eq!(a.owner, Some(2));
    assert_eq!(counts.get(2), 3);
    assert_eq!(counts.get(1), 0);
    assert_eq!(a.trailing_player_distance, STARTING_FOLLOW_DISTANCE + 3 * FOLLOW_DISTANCE_INCR);
}

#[test]
fn steal_from_departed_owner_keeps_counts_non_negative() {
    let mut counts = PlayerPackCounts::new();
    let mut a = pack_at(0, 0);
    let mut b = pack_at(10_000, 0);
    a.player_server_update(1, Point::new(0, 0), &mut counts);
    b.player_server_update(2, Point::new(10_000, 0), &mut counts);
    counts.remove(1);
    a.player_server_update(2, Point::new(10_000, 0), &mut counts);
    assert_eq!(a.owner, Some(2));
    assert_eq!(counts.get(1), 0);
    assert_eq!(counts.get(2), 2);
}

#[test]
fn follow_distance_grows_along_steals() {
    // player 2 holds two other packs and player 3 four, so the contested
    // pack passes 1 -> 2 -> 3, each taker holding strictly more
    let mut counts = PlayerPackCounts::new();
    let mut contested = pack_at(0, 0);
    for k in 0..6i64 {
        let at = Point::new(100_000 + 10_000 * k, 0);
        let mut extra = pack_at(at.x, at.z);
        extra.player_server_update(if k < 2 { 2 } else { 3 }, at, &mut counts);
    }
    assert_eq!(counts.get(2), 2);
    assert_eq!(counts.get(3), 4);
    let mut recorded = Vec::new();
    contested.player_server_update(1, Point::new(0, 0), &mut counts);
    recorded.push(contested.trailing_player_distance);
    contested.player_server_update(2, Point::new(0, 0), &mut counts);
    assert_eq!(contested.owner, Some(2));
    recorded.push(contested.trailing_player_distance);
    contested.player_server_update(3, Point::new(0, 0), &mut counts);
    assert_eq!(contested.owner, Some(3));
    recorded.push(contested.trailing_player_distance);
    assert_eq!(recorded, vec![3000, 5000, 7000]);
    assert!(recorded[0] < recorded[1] && recorded[1] < recorded[2]);
}

#[test]
fn owner_drags_pack_by_excess_distance() {
    let mut counts = PlayerPackCounts::new();
    let mut pack = pack_at(0, 0);
    pack.player_server_update(1, Point::new(1000, 0), &mut counts);
    assert_eq!(pack.trailing_player_distance, 3000);
    pack.player_server_update(1, Point::new(5000, 0), &mut counts);
    assert_eq!(pack.position, Point::new(2000, 0));
    assert_eq!(pack.yaw, 0);
    assert!(pack.is_moving);
    pack.player_server_update(1, Point::new(5000, 0), &mut counts);
    assert_eq!(pack.position, Point::new(2000, 0));
    assert!(!pack.is_moving);
}

#[test]
fn drag_toward_negative_x_turns_heading() {
    let mut counts = PlayerPackCounts::new();
    let mut pack = pack_at(0, 0);
    pack.player_server_update(4, Point::new(0, 1000), &mut counts);
    pack.player_server_update(4, Point::new(-4000, 0), &mut counts);
    assert_eq!(pack.position, Point::new(-1000, 0));
    assert_eq!(pack.yaw, -PI_MICRO);
}

#[test]
fn tick_gives_lone_nearby_player_the_pack() {
    let mut packs = MiniPacks::new();
    packs.packs.push(pack_at(0, 0));
    packs.packs.push(pack_at(50_000, 50_000));
    let mut counts = PlayerPackCounts::new();
    let mut players = no_players();
    players[7] = Some(Point::new(500, 500));
    players[9] = Some(Point::new(-30_000, 0));
    packs.players_server_update(&players, &mut counts);
    assert_eq!(packs.packs[0].owner, Some(7));
    assert_eq!(packs.packs[1].owner, None);
    assert_eq!(packs.packs[1].position, Point::new(50_000, 50_000));
    assert_eq!(counts.get(7), 1);
    assert_eq!(counts.get(9), 0);
}

#[test]
fn tick_orders_contention_by_player_id() {
    let mut packs = MiniPacks::new();
    packs.packs.push(pack_at(0, 0));
    let mut counts = PlayerPackCounts::new();
    let mut players = no_players();
    players[5] = Some(Point::new(100, 0));
    players[3] = Some(Point::new(-100, 0));
    packs.players_server_update(&players, &mut counts);
    assert_eq!(packs.packs[0].owner, Some(3));
    assert_eq!(counts.get(3), 1);
    assert_eq!(counts.get(5), 0);
}

#[test]
fn counts_from_owners_and_holders() {
    let counts = PlayerPackCounts::from_owners(&vec![Some(1), None, Some(4), Some(1)]);
    assert_eq!(counts.get(1), 2);
    assert_eq!(counts.get(4), 1);
    assert_eq!(counts.get(0), 0);
    assert_eq!(counts.holders(), 2);
    let mut counts = counts;
    counts.remove(4);
    assert_eq!(counts.holders(), 1);
    counts.clear();
    assert_eq!(counts.holders(), 0);
}

#[test]
fn spawn_marker_names() {
    assert!(is_pack_spawn("misc_minipack_spawn_3"));
    assert!(is_pack_spawn("misc_minipack_spawn_"));
    assert!(!is_pack_spawn("misc_player_spawn_1"));
    assert!(!is_pack_spawn("misc_minipack"));
    let markers = vec![
        ("misc_minipack_spawn_a".to_string(), Point::new(1, 2)),
        ("misc_player_spawn_a".to_string(), Point::new(3, 4)),
        ("misc_minipack_spawn_b".to_string(), Point::new(5, 6)),
    ];
    assert_eq!(pack_spawn_points(&markers), vec![Point::new(1, 2), Point::new(5, 6)]);
}

#[test]
fn spawned_packs_are_fresh_and_random() {
    let mut packs = MiniPacks::new();
    packs.spawn(&vec![Point::new(1000, 2000), Point::new(-3000, 0)]);
    assert_eq!(packs.packs.len(), 2);
    assert_eq!(packs.packs[0].position, Point::new(1000, 2000));
    assert_eq!(packs.packs[1].position, Point::new(-3000, 0));
    for p in &packs.packs {
        assert_eq!(p.owner, None);
        assert!(!p.is_moving);
        assert_eq!(p.members.len(), 5);
        assert!(p.yaw >= 0 && p.yaw < 6_283_185);
        let first: &PackMember = &p.members[0];
        assert!(p.members.iter().any(|m| m.pos_offset != first.pos_offset));
        for m in &p.members {
            assert!(m.pos_offset.x >= -1000 && m.pos_offset.x < 1000);
            assert!(m.pos_offset.z >= -1000 && m.pos_offset.z < 1000);
            assert!(m.standing_yaw >= 0 && m.standing_yaw < 2_000_000);
        }
    }
}

#[test]
fn packs_created_from_map_markers() {
    let markers = vec![
        ("misc_light_1".to_string(), Point::new(9, 9)),
        ("misc_minipack_spawn_1".to_string(), Point::new(4000, -2000)),
    ];
    let packs = MiniPacks::create_from_map(&markers);
    assert_eq!(packs.packs.len(), 1);
    assert_eq!(packs.packs[0].position, Point::new(4000, -2000));
    assert_eq!(packs.packs[0].trailing_player_distance, STARTING_FOLLOW_DISTANCE);
    assert_eq!(packs.net_update_time_count, 0);
}

#[test]
fn owner_list_and_count_check() {
    let mut packs = MiniPacks::new();
    packs.packs.push(pack_at(0, 0));
    packs.packs.push(pack_at(10_000, 0));
    let mut counts = PlayerPackCounts::new();
    let mut players = no_players();
    players[2] = Some(Point::new(10_000, 100));
    packs.players_server_update(&players, &mut counts);
    assert_eq!(packs.owner_list(), vec![None, Some(2)]);
    assert!(packs.counts_within(&counts));
    let inflated = PlayerPackCounts::from_owners(&vec![Some(2), Some(2)]);
    assert!(!packs.counts_within(&inflated));
}

#[test]
fn free_spawn_prefers_first_unused() {
    assert_eq!(free_spawn_index(3, &vec![]), 0);
    assert_eq!(free_spawn_index(3, &vec![0, 2]), 1);
    assert_eq!(free_spawn_index(3, &vec![1, 0]), 2);
    assert_eq!(free_spawn_index(2, &vec![1, 0]), 0);
}

#[test]
fn ranking_by_pack_count() {
    let counts = PlayerPackCounts::from_owners(&vec![Some(4), Some(2), Some(4), Some(6), Some(4), Some(2)]);
    assert_eq!(counts.rank_by_count(&vec![1, 2, 4, 6, 3]), vec![4, 2, 6, 1, 3]);
    assert_eq!(counts.rank_by_count(&vec![]), Vec::<u8>::new());
}
