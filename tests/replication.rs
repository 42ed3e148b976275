use wolfpack::geometry::{Point, TWO_PI_MICRO};
use wolfpack::interpolation::{linear_interpolate, InterpolationHelper, PosYawValue};
use wolfpack::minipack::{MiniPack, MiniPackUpdate, MiniPacks};

fn pose(x: i64, z: i64, yaw: i64) -> PosYawValue {
    PosYawValue { pos: Point::new(x, z), yaw }
}

#[test]
fn yaw_interpolation_crosses_the_seam() {
    let r = linear_interpolate(&pose(0, 0, 100_000), &pose(0, 0, 6_200_000), 1, 2);
    assert_eq!(r.yaw, 6_291_593);
    let wrapped = r.yaw.rem_euclid(TWO_PI_MICRO);
    assert!(wrapped < 100_000 || wrapped > TWO_PI_MICRO - 100_000);
    // the other way round
    let r = linear_interpolate(&pose(0, 0, 6_200_000), &pose(0, 0, 100_000), 1, 2);
    assert_eq!(r.yaw, 6_291_592);
}

#[test]
fn yaw_interpolation_without_seam_is_linear() {
    let r = linear_interpolate(&pose(0, 0, 1_000_000), &pose(0, 0, 3_000_000), 1, 4);
    assert_eq!(r.yaw, 1_500_000);
}

#[test]
fn position_interpolation_per_axis() {
    let r = linear_interpolate(&pose(0, 1000, 0), &pose(1000, -1000, 0), 3, 10);
    assert_eq!(r.pos, Point::new(300, 400));
}

#[test]
fn buffer_not_ready_before_two_samples() {
    let mut h = InterpolationHelper::new();
    assert_eq!(h.value(10_000), None);
    h.post_update(pose(0, 0, 0));
    assert_eq!(h.value(10_000), None);
    h.post_update(pose(1000, 0, 0));
    assert_eq!(h.value(50_000).map(|v| v.pos), Some(Point::new(500, 0)));
    // past the span the pose runs on beyond the newer sample
    assert_eq!(h.value(500_000).map(|v| v.pos), Some(Point::new(5500, 0)));
    h.post_update(pose(2000, 0, 0));
    assert_eq!(h.updates.len(), 2);
    assert_eq!(h.last_update_duration, 550_000);
    assert_eq!(h.value(275_000).map(|v| v.pos), Some(Point::new(1500, 0)));
}

#[test]
fn snapshot_once_per_interval() {
    let mut packs = MiniPacks::new();
    packs.packs.push(MiniPack::new(Point::new(5, 6), 7, Vec::new()));
    let mut emitted = 0;
    for dt in [30_000u64, 30_000, 40_000] {
        if packs.server_update_msg(dt).is_some() {
            emitted += 1;
        }
    }
    assert_eq!(emitted, 1);
    assert_eq!(packs.net_update_time_count, 0);
    assert!(packs.server_update_msg(99_999).is_none());
    let snap = packs.server_update_msg(1).unwrap();
    assert_eq!(
        snap,
        vec![MiniPackUpdate { position: Point::new(5, 6), yaw: 7, owner: None, is_moving: false }]
    );
}

#[test]
fn snapshot_applied_by_list_position() {
    let mut packs = MiniPacks::new();
    packs.packs.push(MiniPack::new(Point::new(0, 0), 0, Vec::new()));
    packs.packs.push(MiniPack::new(Point::new(0, 0), 0, Vec::new()));
    let updates = vec![
        MiniPackUpdate { position: Point::new(100, 0), yaw: 1, owner: Some(2), is_moving: true },
        MiniPackUpdate { position: Point::new(200, 0), yaw: 2, owner: None, is_moving: false },
        MiniPackUpdate { position: Point::new(300, 0), yaw: 3, owner: Some(9), is_moving: true },
    ];
    packs.client_update_msg(&updates);
    assert_eq!(packs.packs[0].owner, Some(2));
    assert!(packs.packs[0].is_moving);
    assert_eq!(packs.packs[1].interpolation.updates, vec![pose(200, 0, 2)]);
    packs.client_update_msg(&updates[1..].to_vec());
    assert_eq!(packs.packs[0].owner, None);
    assert_eq!(packs.packs[0].interpolation.updates, vec![pose(100, 0, 1), pose(200, 0, 2)]);
    packs.packs[0].client_update(100_000);
    assert_eq!(packs.packs[0].position, Point::new(200, 0));
    assert_eq!(packs.packs[0].yaw, 2);
    packs.packs[1].client_update(50_000);
    assert_eq!(packs.packs[1].position, Point::new(250, 0));
}

#[test]
fn extrapolation_is_held_within_bounds() {
    let r = linear_interpolate(&pose(0, 0, 0), &pose(1_000_000_000, -1_000_000_000, 0), 3, 1);
    assert_eq!(r.pos, Point::new(1_000_000_000, -1_000_000_000));
    let r = linear_interpolate(&pose(0, 0, 0), &pose(1000, 0, 2_000_000), 5, 2);
    assert_eq!(r.pos, Point::new(2500, 0));
    assert_eq!(r.yaw, 5_000_000);
}
