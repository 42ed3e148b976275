use vstd::prelude::*;
use crate::counts::{PLAYER_ID_COUNT, PlayerPackCounts, owned_count, lemma_owned_count_update, lemma_owned_count_le_len};
use crate::geometry::{
    TWO_PI_MICRO,
    Point, dist_sq, floor_sqrt, lemma_floor_sqrt_unique, lemma_scaled_le,
    distance_squared, isqrt, heading, heading_of, COORD_LIMIT,
};
use crate::interpolation::{InterpolationHelper, PosYawValue, YAW_LIMIT};
use crate::rng::random_in_range;
use vstd::utf8::encode_utf8;
use vstd::string::StringSliceAdditionalSpecFns;

verus! {

/// A player closer than this (1.5 units) picks up an unowned pack.
pub const PICKUP_DISTANCE: i64 = 1500;

/// Follow distance of a pack whose owner holds no other pack (2 units).
pub const STARTING_FOLLOW_DISTANCE: i64 = 2000;

/// Follow distance added for each pack the owner holds (1 unit).
pub const FOLLOW_DISTANCE_INCR: i64 = 1000;

/// Largest number of packs in play.
pub const MAX_PACKS: usize = 1_000_000;

/// Accumulated time, in microseconds, between two snapshots (0.1 s).
pub const SERVER_UPDATE_INTERVAL: u64 = 100_000;

/// Fewest and most members a spawned pack has.
pub const MIN_PACK_SIZE: i64 = 5;
pub const MAX_PACK_SIZE: i64 = 5;

/// Members stand within this distance of the pack's position on each axis (1 unit).
pub const POSITION_VARIANCE: i64 = 1000;

/// Members' heading jitter lies within `[0, YAW_VARIANCE)` microradians.
pub const YAW_VARIANCE: i64 = 2_000_000;

/// Members are placed at least this far apart (0.3 units) while placement
/// attempts remain.
pub const MIN_MEMBER_DISTANCE: i64 = 300;

/// Placement attempts for one member before the last one is kept.
pub const MAX_PLACEMENT_ATTEMPTS: u32 = 100;

/// Map markers whose name starts with this are pack spawn points.
pub const PACK_SPAWN_PREFIX: &'static str = "misc_minipack_spawn_";

/// `p` is a prefix of `s`.
pub open spec fn has_prefix(s: Seq<u8>, p: Seq<u8>) -> bool {
    p.len() <= s.len() && s.subrange(0, p.len() as int) == p
}

/// Whether the map marker called `key` is a pack spawn point.
pub fn is_pack_spawn(key: &str) -> (r: bool)
    ensures
        r == has_prefix(key.spec_bytes(), PACK_SPAWN_PREFIX.spec_bytes()),
{
    let s = key.as_bytes();
    let p = PACK_SPAWN_PREFIX.as_bytes();
    if p.len() > s.len() {
        return false;
    }
    let mut i: usize = 0;
    while i < p.len()
        invariant
            i <= p@.len() <= s@.len(),
            s@ == key.spec_bytes(),
            p@ == PACK_SPAWN_PREFIX.spec_bytes(),
            s@.subrange(0, i as int) == p@.subrange(0, i as int),
        decreases p@.len() - i,
    {
        if s[i] != p[i] {
            assert(s@.subrange(0, p@.len() as int)[i as int] != p@[i as int]);
            return false;
        }
        assert(s@.subrange(0, i as int + 1) =~= s@.subrange(0, i as int).push(s@[i as int]));
        assert(p@.subrange(0, i as int + 1) =~= p@.subrange(0, i as int).push(p@[i as int]));
        i = i + 1;
    }
    assert(p@.subrange(0, i as int) =~= p@);
    true
}

/// A marker is a pack spawn point when its name starts with `PACK_SPAWN_PREFIX`.
pub open spec fn is_spawn_name(name: Seq<char>) -> bool {
    has_prefix(encode_utf8(name), PACK_SPAWN_PREFIX.spec_bytes())
}

/// The positions of the pack spawn markers among `markers`, in order.
pub open spec fn spawn_points_of(markers: Seq<(String, Point)>) -> Seq<Point>
    decreases markers.len(),
{
    if markers.len() == 0 {
        Seq::empty()
    } else {
        let rest = spawn_points_of(markers.drop_last());
        if is_spawn_name(markers.last().0@) {
            rest.push(markers.last().1)
        } else {
            rest
        }
    }
}

/// The positions of the pack spawn markers among the named map markers
/// `markers`, in order.
pub fn pack_spawn_points(markers: &Vec<(String, Point)>) -> (r: Vec<Point>)
    ensures
        r@ == spawn_points_of(markers@),
{
    let mut r: Vec<Point> = Vec::new();
    let mut i: usize = 0;
    while i < markers.len()
        invariant
            i <= markers@.len(),
            r@ == spawn_points_of(markers@.take(i as int)),
        decreases markers@.len() - i,
    {
        let m = &markers[i];
        assert(markers@.take(i as int + 1).drop_last() =~= markers@.take(i as int));
        if is_pack_spawn(m.0.as_str()) {
            r.push(m.1);
        }
        i = i + 1;
    }
    assert(markers@.take(i as int) =~= markers@);
    r
}

/// The spawn points are among the markers' positions, and no more numerous.
proof fn lemma_spawn_points_from(markers: Seq<(String, Point)>)
    ensures
        spawn_points_of(markers).len() <= markers.len(),
        forall|i: int| 0 <= i < spawn_points_of(markers).len() ==> exists|j: int|
            0 <= j < markers.len() && #[trigger] spawn_points_of(markers)[i] == markers[j].1,
    decreases markers.len(),
{
    if markers.len() > 0 {
        let rest = markers.drop_last();
        lemma_spawn_points_from(rest);
        assert forall|i: int| 0 <= i < spawn_points_of(markers).len() implies exists|j: int|
            0 <= j < markers.len() && #[trigger] spawn_points_of(markers)[i] == markers[j].1 by {
            if i < spawn_points_of(rest).len() {
                let j = choose|j: int| 0 <= j < rest.len() && spawn_points_of(rest)[i] == rest[j].1;
                assert(markers[j] == rest[j]);
            } else {
                assert(spawn_points_of(markers)[i] == markers[markers.len() - 1].1);
            }
        }
    }
}

/// Follow distance of a pack whose owner holds `count` packs.
pub open spec fn follow_distance(count: int) -> int {
    STARTING_FOLLOW_DISTANCE + count * FOLLOW_DISTANCE_INCR
}

/// Every change of owner records the follow distance from the new owner's
/// count; so along changes to owners with strictly increasing counts, the
/// recorded follow distances strictly increase.
pub proof fn lemma_follow_distance_increases(counts: Seq<int>, distances: Seq<int>)
    requires
        distances.len() == counts.len(),
        forall|i: int| 0 <= i < counts.len() ==> #[trigger] distances[i] == follow_distance(counts[i]),
        forall|i: int, j: int| 0 <= i < j < counts.len() ==> counts[i] < counts[j],
    ensures
        forall|i: int, j: int| 0 <= i < j < distances.len() ==> distances[i] < distances[j],
{
    assert forall|i: int, j: int| 0 <= i < j < distances.len() implies distances[i] < distances[j] by {
        assert(distances[i] == follow_distance(counts[i]));
        assert(distances[j] == follow_distance(counts[j]));
        assert(counts[i] < counts[j]);
    }
}

/// `diff * excess / d`, rounded toward zero.
pub open spec fn toward(diff: int, excess: int, d: int) -> int {
    if diff >= 0 {
        diff * excess / d
    } else {
        -((-diff) * excess / d)
    }
}

/// Movement that drags a pack at `pos`, trailing at `trailing`, toward a
/// player at `player`: along the line to the player, by the amount the
/// (floor) distance exceeds `trailing`; none while the player is within reach.
pub open spec fn drag_movement(pos: Point, player: Point, trailing: int) -> (int, int) {
    let dsq = dist_sq(pos, player);
    if dsq > trailing * trailing {
        let d = floor_sqrt(dsq);
        (toward(player.x - pos.x, d - trailing, d), toward(player.z - pos.z, d - trailing, d))
    } else {
        (0, 0)
    }
}

/// A pack is picked up by a player at `player` when closer than `PICKUP_DISTANCE`.
pub open spec fn within_pickup(pos: Point, player: Point) -> bool {
    dist_sq(pos, player) < PICKUP_DISTANCE * PICKUP_DISTANCE
}

/// One arbitration step of pack `pack` against player `pid` standing at
/// `player`, with pack counts `counts` (indexed by player identifier): the
/// pack and the counts afterwards.
/// - Unowned: a player within `PICKUP_DISTANCE` takes it; their count grows
///   by one and the follow distance is set from the new count.
/// - Owned by another player: a player holding strictly more packs than the
///   owner takes it, at any distance; the taker's count grows by one, the
///   former owner's shrinks by one (never below zero), and the follow
///   distance is set from the taker's new count.
/// - Owned by this player: the pack moves by `drag_movement`; its heading
///   follows the movement and it counts as moving exactly when it moved.
pub open spec fn step(pack: MiniPack, pid: u8, player: Point, counts: Seq<usize>) -> (MiniPack, Seq<usize>) {
    let own = counts[pid as int] as int;
    match pack.owner {
        None => if within_pickup(pack.position, player) {
            (
                MiniPack {
                    owner: Some(pid),
                    trailing_player_distance: follow_distance(own + 1) as i64,
                    ..pack
                },
                counts.update(pid as int, (own + 1) as usize),
            )
        } else {
            (pack, counts)
        },
        Some(o) => if o == pid {
            let (mx, mz) = drag_movement(pack.position, player, pack.trailing_player_distance as int);
            let moved = mx != 0 || mz != 0;
            (
                MiniPack {
                    position: Point {
                        x: (pack.position.x + mx) as i64,
                        z: (pack.position.z + mz) as i64,
                    },
                    yaw: if moved {
                        heading_of(mx, mz) as i64
                    } else {
                        pack.yaw
                    },
                    is_moving: moved,
                    ..pack
                },
                counts,
            )
        } else if own > counts[o as int] {
            let other = counts[o as int] as int;
            (
                MiniPack {
                    owner: Some(pid),
                    trailing_player_distance: follow_distance(own + 1) as i64,
                    ..pack
                },
                counts.update(pid as int, (own + 1) as usize).update(
                    o as int,
                    (if other > 0 {
                        other - 1
                    } else {
                        0
                    }) as usize,
                ),
            )
        } else {
            (pack, counts)
        },
    }
}

/// Player `pid` at `player` arbitrated against the first `j` packs of
/// `packs`, in list order.
pub open spec fn step_packs(packs: Seq<MiniPack>, pid: u8, player: Point, counts: Seq<usize>, j: nat) -> (
    Seq<MiniPack>,
    Seq<usize>,
)
    decreases j,
{
    if j == 0 {
        (packs, counts)
    } else {
        let (ps, cs) = step_packs(packs, pid, player, counts, (j - 1) as nat);
        let (p, c) = step(ps[j - 1], pid, player, cs);
        (ps.update(j - 1, p), c)
    }
}

/// The first `k` player identifiers, in ascending order, each present one
/// (`players[pid]` holds their position) arbitrated against every pack.
pub open spec fn tick(packs: Seq<MiniPack>, players: Seq<Option<Point>>, counts: Seq<usize>, k: nat) -> (
    Seq<MiniPack>,
    Seq<usize>,
)
    decreases k,
{
    if k == 0 {
        (packs, counts)
    } else {
        let (ps, cs) = tick(packs, players, counts, (k - 1) as nat);
        match players[k - 1] {
            Some(q) => step_packs(ps, (k - 1) as u8, q, cs, ps.len()),
            None => (ps, cs),
        }
    }
}

/// Arbitrating the first `n` packs keeps the list length and leaves the
/// later packs as they were; a pack already arbitrated keeps its result.
proof fn lemma_step_packs_frame(packs: Seq<MiniPack>, pid: u8, player: Point, counts: Seq<usize>, n: nat)
    requires
        n <= packs.len(),
    ensures
        step_packs(packs, pid, player, counts, n).0.len() == packs.len(),
        forall|i: int| n <= i < packs.len() ==> #[trigger] step_packs(packs, pid, player, counts, n).0[i] == packs[i],
        forall|i: int| 0 <= i < n ==> #[trigger] step_packs(packs, pid, player, counts, n).0[i] == step_packs(
            packs, pid, player, counts, (i + 1) as nat).0[i],
    decreases n,
{
    if n > 0 {
        lemma_step_packs_frame(packs, pid, player, counts, (n - 1) as nat);
    }
}

/// Identifiers with no present player leave a tick where it was.
proof fn lemma_tick_idle(packs: Seq<MiniPack>, players: Seq<Option<Point>>, counts: Seq<usize>, from: nat, k: nat)
    requires
        from <= k <= players.len(),
        forall|i: int| from <= i < k ==> #[trigger] players[i].is_none(),
    ensures
        tick(packs, players, counts, k) == tick(packs, players, counts, from),
    decreases k,
{
    if k > from {
        lemma_tick_idle(packs, players, counts, from, (k - 1) as nat);
        assert(players[k - 1].is_none());
    }
}

/// A tick with a single present player hands that player every unowned pack
/// they stand within pickup distance of.
pub proof fn lemma_lone_player_picks_up(
    packs: Seq<MiniPack>,
    players: Seq<Option<Point>>,
    counts: Seq<usize>,
    q: u8,
    j: int,
)
    requires
        players.len() == 256,
        players[q as int].is_some(),
        forall|i: int| 0 <= i < 256 && i != q ==> #[trigger] players[i].is_none(),
        0 <= j < packs.len(),
        packs[j].owner.is_none(),
        within_pickup(packs[j].position, players[q as int].unwrap()),
    ensures
        tick(packs, players, counts, 256).0[j].owner == Some(q),
{
    let pos = players[q as int].unwrap();
    lemma_tick_idle(packs, players, counts, 0, q as nat);
    assert(tick(packs, players, counts, q as nat) == (packs, counts));
    let after = step_packs(packs, q, pos, counts, packs.len());
    assert(tick(packs, players, counts, (q + 1) as nat) == after);
    lemma_tick_idle(packs, players, counts, (q + 1) as nat, 256);
    lemma_step_packs_frame(packs, q, pos, counts, packs.len());
    lemma_step_packs_frame(packs, q, pos, counts, j as nat);
    assert(after.0[j] == step_packs(packs, q, pos, counts, (j + 1) as nat).0[j]);
    assert(step_packs(packs, q, pos, counts, j as nat).0[j] == packs[j]);
}

/// One member of a pack: its fixed offset from the pack's position and the
/// heading jitter it shows while the pack is unowned. Local to each side,
/// never replicated.
#[derive(Clone, Copy, Debug, PartialEq, Eq, Structural)]
pub struct PackMember {
    pub pos_offset: Point,
    pub standing_yaw: i64,
}

/// A contended pack of followers.
pub struct MiniPack {
    pub position: Point,
    /// Heading in microradians.
    pub yaw: i64,
    pub members: Vec<PackMember>,
    pub owner: Option<u8>,
    pub is_moving: bool,
    /// Distance beyond which the pack moves toward its owner; fixed when
    /// the owner changes.
    pub trailing_player_distance: i64,
    pub interpolation: InterpolationHelper,
}

impl MiniPack {
    pub open spec fn wf(&self) -> bool {
        &&& self.position.in_bounds()
        &&& 0 <= self.trailing_player_distance <= follow_distance(MAX_PACKS as int)
        &&& self.interpolation.wf()
    }

    /// An unowned, resting pack at `position`.
    pub fn new(position: Point, yaw: i64, members: Vec<PackMember>) -> (r: MiniPack)
        requires
            position.in_bounds(),
        ensures
            r.wf(),
            r.position == position,
            r.yaw == yaw,
            r.members == members,
            r.owner.is_none(),
            !r.is_moving,
            r.trailing_player_distance == STARTING_FOLLOW_DISTANCE,
            r.interpolation.updates@.len() == 0,
    {
        MiniPack {
            position,
            yaw,
            members,
            owner: None,
            is_moving: false,
            trailing_player_distance: STARTING_FOLLOW_DISTANCE,
            interpolation: InterpolationHelper::new(),
        }
    }

    fn update_follow_distance(&mut self, pack_count: usize)
        requires
            old(self).wf(),
            pack_count <= MAX_PACKS,
        ensures
            final(self).wf(),
            final(self).trailing_player_distance == follow_distance(pack_count as int),
            final(self).position == old(self).position,
            final(self).yaw == old(self).yaw,
            final(self).members == old(self).members,
            final(self).owner == old(self).owner,
            final(self).is_moving == old(self).is_moving,
            final(self).interpolation == old(self).interpolation,
    {
        self.trailing_player_distance = STARTING_FOLLOW_DISTANCE + (pack_count as i64) * FOLLOW_DISTANCE_INCR;
    }

    /// Drags the pack toward its owner at `player`, as `drag_movement` says;
    /// the heading follows the movement, and the pack counts as moving
    /// exactly when it moved.
    fn drag_toward(&mut self, player: Point)
        requires
            old(self).wf(),
            player.in_bounds(),
        ensures
            final(self).wf(),
            ({
                let (mx, mz) = drag_movement(
                    old(self).position,
                    player,
                    old(self).trailing_player_distance as int,
                );
                &&& final(self).position.x == old(self).position.x + mx
                &&& final(self).position.z == old(self).position.z + mz
                &&& final(self).is_moving == (mx != 0 || mz != 0)
                &&& final(self).yaw == (if mx != 0 || mz != 0 {
                    heading_of(mx, mz)
                } else {
                    old(self).yaw as int
                })
            }),
            final(self).members == old(self).members,
            final(self).owner == old(self).owner,
            final(self).trailing_player_distance == old(self).trailing_player_distance,
            final(self).interpolation == old(self).interpolation,
    {
        let dsq: u64 = distance_squared(self.position, player);
        let t: u64 = self.trailing_player_distance as u64;
        assert(t * t <= 2_000_000_000_000_000_000) by (nonlinear_arith)
            requires
                t <= 1_000_002_000,
        ;
        if dsq > t * t {
            let d: u64 = isqrt(dsq);
            proof {
                lemma_floor_sqrt_unique(dsq as int, d as int, floor_sqrt(dsq as int));
                if d + 1 <= t {
                    assert((d + 1) * (d + 1) <= t * t) by (nonlinear_arith)
                        requires
                            d + 1 <= t,
                    ;
                }
            }
            assert(d >= t);
            assert(d > 0) by (nonlinear_arith)
                requires
                    d >= t,
                    dsq > t * t,
                    dsq < (d + 1) * (d + 1),
            ;
            let excess: u64 = d - t;
            let mx: i64 = toward_exec(player.x - self.position.x, excess, d);
            let mz: i64 = toward_exec(player.z - self.position.z, excess, d);
            if mx != 0 || mz != 0 {
                self.yaw = heading(mx, mz);
                self.position = Point { x: self.position.x + mx, z: self.position.z + mz };
                self.is_moving = true;
            } else {
                self.is_moving = false;
            }
        } else {
            self.is_moving = false;
        }
    }

    /// Observer side, once per frame: advances the interpolation clock by
    /// `time_delta` microseconds and, once two samples have arrived, shows
    /// the blended pose.
    pub fn client_update(&mut self, time_delta: u64)
        requires
            old(self).wf(),
        ensures
            final(self).wf(),
            final(self).members == old(self).members,
            final(self).owner == old(self).owner,
            final(self).is_moving == old(self).is_moving,
            final(self).trailing_player_distance == old(self).trailing_player_distance,
            final(self).interpolation.updates == old(self).interpolation.updates,
            old(self).interpolation.updates@.len() < 2 ==> final(self).position == old(self).position
                && final(self).yaw == old(self).yaw,
            old(self).interpolation.updates@.len() == 2 ==> ({
                let v = crate::interpolation::interpolated(
                    old(self).interpolation.updates@[0],
                    old(self).interpolation.updates@[1],
                    final(self).interpolation.time_count as int,
                    final(self).interpolation.last_update_duration as int,
                );
                final(self).position == v.pos && final(self).yaw == v.yaw
            }),
    {
        if let Some(pos_yaw) = self.interpolation.value(time_delta) {
            self.position = pos_yaw.pos;
            self.yaw = pos_yaw.yaw;
        }
    }

    /// Arbitration of this pack against player `pid` standing at `player`.
    /// - Unowned: a player within `PICKUP_DISTANCE` takes it; their count
    ///   grows by one and the follow distance is set from the new count.
    /// - Owned by another player: a player holding strictly more packs than
    ///   the owner takes it; the taker's count grows by one, the former
    ///   owner's shrinks by one (never below zero), and the follow distance is
    ///   set from the taker's new count.
    /// - Owned by this player: the pack is dragged toward them.
    pub fn player_server_update(&mut self, pid: u8, player: Point, player_pack_counts: &mut PlayerPackCounts)
        requires
            old(self).wf(),
            player.in_bounds(),
            old(player_pack_counts).wf(),
            old(player_pack_counts).count_of(pid) < MAX_PACKS,
        ensures
            final(self).wf(),
            final(player_pack_counts).wf(),
            final(self).members == old(self).members,
            final(self).interpolation == old(self).interpolation,
            final(self).owner == old(self).owner || final(self).owner == Some(pid),
            (*final(self), final(player_pack_counts)@) == step(*old(self), pid, player, old(player_pack_counts)@),
            ({
                let c0 = old(player_pack_counts)@;
                let c1 = final(player_pack_counts)@;
                let own = c0[pid as int] as int;
                match old(self).owner {
                    None => if within_pickup(old(self).position, player) {
                        &&& final(self).owner == Some(pid)
                        &&& c1 == c0.update(pid as int, (own + 1) as usize)
                        &&& final(self).trailing_player_distance == follow_distance(own + 1)
                        &&& final(self).position == old(self).position
                        &&& final(self).yaw == old(self).yaw
                        &&& final(self).is_moving == old(self).is_moving
                    } else {
                        &&& final(self).owner == old(self).owner
                        &&& c1 == c0
                        &&& final(self).trailing_player_distance == old(self).trailing_player_distance
                        &&& final(self).position == old(self).position
                        &&& final(self).yaw == old(self).yaw
                        &&& final(self).is_moving == old(self).is_moving
                    },
                    Some(o) => if o == pid {
                        let (mx, mz) = drag_movement(
                            old(self).position,
                            player,
                            old(self).trailing_player_distance as int,
                        );
                        &&& final(self).owner == old(self).owner
                        &&& c1 == c0
                        &&& final(self).trailing_player_distance == old(self).trailing_player_distance
                        &&& final(self).position.x == old(self).position.x + mx
                        &&& final(self).position.z == old(self).position.z + mz
                        &&& final(self).is_moving == (mx != 0 || mz != 0)
                        &&& final(self).yaw == (if mx != 0 || mz != 0 {
                            heading_of(mx, mz)
                        } else {
                            old(self).yaw as int
                        })
                    } else if own > c0[o as int] {
                        let other = c0[o as int] as int;
                        &&& final(self).owner == Some(pid)
                        &&& c1 == c0.update(pid as int, (own + 1) as usize).update(
                            o as int,
                            (if other > 0 { other - 1 } else { 0 }) as usize,
                        )
                        &&& final(self).trailing_player_distance == follow_distance(own + 1)
                        &&& final(self).position == old(self).position
                        &&& final(self).yaw == old(self).yaw
                        &&& final(self).is_moving == old(self).is_moving
                    } else {
                        &&& final(self).owner == old(self).owner
                        &&& c1 == c0
                        &&& final(self).trailing_player_distance == old(self).trailing_player_distance
                        &&& final(self).position == old(self).position
                        &&& final(self).yaw == old(self).yaw
                        &&& final(self).is_moving == old(self).is_moving
                    },
                }
            }),
    {
        let own_pack_counts: usize = player_pack_counts.get(pid);
        match self.owner {
            Some(owner_id) => {
                if owner_id == pid {
                    self.drag_toward(player);
                } else {
                    let other_pack_counts: usize = player_pack_counts.get(owner_id);
                    if own_pack_counts > other_pack_counts {
                        self.owner = Some(pid);
                        player_pack_counts.set(pid, own_pack_counts + 1);
                        player_pack_counts.set(owner_id, other_pack_counts.saturating_sub(1));
                        self.update_follow_distance(own_pack_counts + 1);
                    }
                }
            },
            None => {
                let dsq: u64 = distance_squared(self.position, player);
                if dsq < (PICKUP_DISTANCE * PICKUP_DISTANCE) as u64 {
                    self.owner = Some(pid);
                    player_pack_counts.set(pid, own_pack_counts + 1);
                    self.update_follow_distance(own_pack_counts + 1);
                }
            },
        }
    }
}

/// `diff * excess / d` rounded toward zero; never larger in size than `diff`.
fn toward_exec(diff: i64, excess: u64, d: u64) -> (r: i64)
    requires
        -2 * COORD_LIMIT <= diff <= 2 * COORD_LIMIT,
        excess <= d,
        0 < d <= 3_000_000_000,
    ensures
        r == toward(diff as int, excess as int, d as int),
        0 <= diff ==> 0 <= r <= diff,
        diff < 0 ==> diff <= r <= 0,
{
    let a: u128 = if diff >= 0 { diff as u128 } else { (-diff) as u128 };
    proof {
        lemma_scaled_le(a as int, excess as int, d as int);
    }
    assert(a * (excess as u128) <= 2_000_000_000 * 3_000_000_000) by (nonlinear_arith)
        requires
            a <= 2_000_000_000,
            excess <= 3_000_000_000,
    ;
    let q: u128 = a * (excess as u128) / (d as u128);
    if diff >= 0 {
        q as i64
    } else {
        -(q as i64)
    }
}

/// The replicated state of one pack: position, heading, owner and motion.
/// A snapshot is a list of these, aligned with the pack list.
#[derive(Clone, Copy, Debug, PartialEq, Eq)]
pub struct MiniPackUpdate {
    pub position: Point,
    pub yaw: i64,
    pub owner: Option<u8>,
    pub is_moving: bool,
}

impl MiniPackUpdate {
    /// Position within bounds and yaw within `YAW_LIMIT`.
    pub open spec fn in_bounds(&self) -> bool {
        self.position.in_bounds() && -YAW_LIMIT <= self.yaw <= YAW_LIMIT
    }
}

/// The replicated state of `p`.
pub open spec fn update_of(p: MiniPack) -> MiniPackUpdate {
    MiniPackUpdate { position: p.position, yaw: p.yaw, owner: p.owner, is_moving: p.is_moving }
}

/// `p` is a freshly spawned pack at `at`: unowned, resting, with the starting
/// follow distance, no samples, a heading within `[0, 2π)`, and between
/// `MIN_PACK_SIZE` and `MAX_PACK_SIZE` members standing within
/// `POSITION_VARIANCE` of it.
pub open spec fn fresh_pack_at(p: MiniPack, at: Point) -> bool {
    &&& p.wf()
    &&& p.position == at
    &&& p.owner.is_none()
    &&& !p.is_moving
    &&& p.trailing_player_distance == STARTING_FOLLOW_DISTANCE
    &&& p.interpolation.updates@.len() == 0
    &&& 0 <= p.yaw < TWO_PI_MICRO
    &&& MIN_PACK_SIZE <= p.members@.len() <= MAX_PACK_SIZE
    &&& forall|i: int| 0 <= i < p.members@.len() ==> member_ok(#[trigger] p.members@[i])
}

/// A member's offset and heading jitter lie within their variances.
pub open spec fn member_ok(m: PackMember) -> bool {
    &&& -POSITION_VARIANCE <= m.pos_offset.x < POSITION_VARIANCE
    &&& -POSITION_VARIANCE <= m.pos_offset.z < POSITION_VARIANCE
    &&& 0 <= m.standing_yaw < YAW_VARIANCE
}

/// `new` holds the pack spawned at each of `spawns`, in order.
pub open spec fn spawned_from(new: Seq<MiniPack>, spawns: Seq<Point>) -> bool {
    &&& new.len() == spawns.len()
    &&& forall|i: int| 0 <= i < new.len() ==> fresh_pack_at(#[trigger] new[i], spawns[i])
}

/// Whether member `m` stands closer than `MIN_MEMBER_DISTANCE` to any of `members`.
fn crowded(members: &Vec<PackMember>, m: PackMember) -> (r: bool)
    requires
        member_ok(m),
        forall|i: int| 0 <= i < members@.len() ==> member_ok(#[trigger] members@[i]),
    ensures
        r == exists|i: int|
            0 <= i < members@.len() && dist_sq(
                (#[trigger] members@[i]).pos_offset,
                m.pos_offset,
            ) < MIN_MEMBER_DISTANCE * MIN_MEMBER_DISTANCE,
{
    let mut i: usize = 0;
    while i < members.len()
        invariant
            i <= members@.len(),
            member_ok(m),
            forall|k: int| 0 <= k < members@.len() ==> member_ok(#[trigger] members@[k]),
            forall|k: int|
                0 <= k < i ==> dist_sq((#[trigger] members@[k]).pos_offset, m.pos_offset)
                    >= MIN_MEMBER_DISTANCE * MIN_MEMBER_DISTANCE,
        decreases members@.len() - i,
    {
        let o = members[i].pos_offset;
        assert(o.in_bounds() && m.pos_offset.in_bounds());
        if distance_squared(o, m.pos_offset) < (MIN_MEMBER_DISTANCE * MIN_MEMBER_DISTANCE) as u64 {
            return true;
        }
        i = i + 1;
    }
    false
}

/// A random member: heading jitter, then offsets drawn until one stands
/// clear of `members` or the attempts run out.
fn random_member(members: &Vec<PackMember>) -> (r: PackMember)
    requires
        forall|i: int| 0 <= i < members@.len() ==> member_ok(#[trigger] members@[i]),
    ensures
        member_ok(r),
{
    let standing_yaw = random_in_range(0, YAW_VARIANCE);
    let mut m = PackMember {
        pos_offset: Point {
            x: random_in_range(-POSITION_VARIANCE, POSITION_VARIANCE),
            z: random_in_range(-POSITION_VARIANCE, POSITION_VARIANCE),
        },
        standing_yaw,
    };
    let mut attempts: u32 = 1;
    while attempts < MAX_PLACEMENT_ATTEMPTS && crowded(members, m)
        invariant
            member_ok(m),
            0 <= standing_yaw < YAW_VARIANCE,
            forall|i: int| 0 <= i < members@.len() ==> member_ok(#[trigger] members@[i]),
        decreases MAX_PLACEMENT_ATTEMPTS - attempts,
    {
        m = PackMember {
            pos_offset: Point {
                x: random_in_range(-POSITION_VARIANCE, POSITION_VARIANCE),
                z: random_in_range(-POSITION_VARIANCE, POSITION_VARIANCE),
            },
            standing_yaw,
        };
        attempts = attempts + 1;
    }
    m
}

/// A freshly spawned pack at `at`, with a random heading and random members.
fn spawn_pack(at: Point) -> (r: MiniPack)
    requires
        at.in_bounds(),
    ensures
        fresh_pack_at(r, at),
{
    let yaw = random_in_range(0, TWO_PI_MICRO);
    let member_count = random_in_range(MIN_PACK_SIZE, MAX_PACK_SIZE + 1);
    let mut members: Vec<PackMember> = Vec::new();
    let mut n: i64 = 0;
    while n < member_count
        invariant
            0 <= n <= member_count <= MAX_PACK_SIZE,
            members@.len() == n,
            forall|i: int| 0 <= i < members@.len() ==> member_ok(#[trigger] members@[i]),
        decreases member_count - n,
    {
        let m = random_member(&members);
        members.push(m);
        n = n + 1;
    }
    MiniPack::new(at, yaw, members)
}

/// The owner of each pack, in list order.
pub open spec fn owners_of(packs: Seq<MiniPack>) -> Seq<Option<u8>> {
    packs.map_values(|p: MiniPack| p.owner)
}

/// No player among the first `k` identifiers present in `players` is within
/// pickup distance of `pos`.
pub open spec fn far_from_players(pos: Point, players: Seq<Option<Point>>, k: int) -> bool {
    forall|p: int|
        0 <= p < k && #[trigger] players[p].is_some() ==> !within_pickup(pos, players[p].unwrap())
}

/// `owner` is one of the first `k` identifiers present in `players`.
pub open spec fn owned_by_present(owner: Option<u8>, players: Seq<Option<Point>>, k: int) -> bool {
    match owner {
        Some(p) => p < k && players[p as int].is_some(),
        None => false,
    }
}

/// How one arbitration step may change one pack's owner and the counts.
spec fn step_change(
    before: Option<u8>,
    after: Option<u8>,
    pid: u8,
    c0: Seq<usize>,
    c1: Seq<usize>,
) -> bool {
    ||| (after == before && c1 == c0)
    ||| (before.is_none() && after == Some(pid) && c1 == c0.update(
        pid as int,
        (c0[pid as int] + 1) as usize,
    ))
    ||| (before.is_some() && before.unwrap() != pid && after == Some(pid) && c1 == c0.update(
        pid as int,
        (c0[pid as int] + 1) as usize,
    ).update(
        before.unwrap() as int,
        (if c0[before.unwrap() as int] > 0 {
            c0[before.unwrap() as int] - 1
        } else {
            0
        }) as usize,
    ))
}

/// One arbitration step keeps the counts equal to what the owners give:
/// where each player's count is the number of packs they own before the
/// step, it still is afterwards, so every owned pack stays counted for its
/// one owner.
pub proof fn lemma_step_keeps_counts_matching(
    packs: Seq<MiniPack>,
    j: int,
    pid: u8,
    player: Point,
    counts: Seq<usize>,
)
    requires
        0 <= j < packs.len(),
        counts.len() == PLAYER_ID_COUNT,
        counts[pid as int] < MAX_PACKS,
        forall|p: u8| #[trigger] counts[p as int] as nat == owned_count(owners_of(packs), p),
    ensures
        ({
            let (pk, cs) = step(packs[j], pid, player, counts);
            forall|p: u8| #[trigger] cs[p as int] as nat == owned_count(owners_of(packs.update(j, pk)), p)
        }),
{
    let (pk, cs) = step(packs[j], pid, player, counts);
    let owners = owners_of(packs);
    let u = owners.update(j, pk.owner);
    assert(owners_of(packs.update(j, pk)) =~= u);
    assert(owners[j] == packs[j].owner);
    if packs[j].owner.is_some() {
        let o = packs[j].owner.unwrap();
        lemma_owned_count_update(owners, j, pk.owner, o);
        assert(counts[o as int] as nat == owned_count(owners, o));
    }
    assert forall|p: u8| #[trigger] cs[p as int] as nat == owned_count(u, p) by {
        assert(counts[p as int] as nat == owned_count(owners, p));
        lemma_owned_count_update(owners, j, pk.owner, p);
    }
}

/// One arbitration step keeps the counts within, or equal to, what the owners give.
proof fn lemma_step_counts(
    owners: Seq<Option<u8>>,
    j: int,
    after: Option<u8>,
    pid: u8,
    c0: PlayerPackCounts,
    c1: PlayerPackCounts,
)
    requires
        0 <= j < owners.len(),
        c0.wf(),
        c1.wf(),
        c0.count_of(pid) < MAX_PACKS,
        step_change(owners[j], after, pid, c0@, c1@),
    ensures
        c0.bounded_by(owners) ==> c1.bounded_by(owners.update(j, after)),
        c0.matches_owners(owners) ==> c1.matches_owners(owners.update(j, after)),
{
    let u = owners.update(j, after);
    assert forall|p: u8| owned_count(u, p) + (if owners[j] == Some(p) {
        1int
    } else {
        0int
    }) == owned_count(owners, p) + (if after == Some(p) {
        1int
    } else {
        0int
    }) by {
        lemma_owned_count_update(owners, j, after, p);
    }
    if c0.bounded_by(owners) {
        assert forall|p: u8| #[trigger] c1.count_of(p) <= owned_count(u, p) by {
            assert(c0.count_of(p) <= owned_count(owners, p));
        }
    }
    if c0.matches_owners(owners) {
        if owners[j].is_some() {
            let o = owners[j].unwrap();
            lemma_owned_count_update(owners, j, after, o);
            assert(c0.count_of(o) == owned_count(owners, o));
        }
        assert forall|p: u8| #[trigger] c1.count_of(p) == owned_count(u, p) by {
            assert(c0.count_of(p) == owned_count(owners, p));
            lemma_owned_count_update(owners, j, after, p);
        }
    }
}

/// The packs in play and the snapshot clock.
pub struct MiniPacks {
    pub packs: Vec<MiniPack>,
    /// Microseconds accumulated toward the next snapshot.
    pub net_update_time_count: u64,
}

impl MiniPacks {
    pub open spec fn wf(&self) -> bool {
        &&& self.packs@.len() < MAX_PACKS
        &&& forall|i: int| 0 <= i < self.packs@.len() ==> (#[trigger] self.packs@[i]).wf()
    }

    /// The owner of each pack.
    pub open spec fn owners(&self) -> Seq<Option<u8>> {
        owners_of(self.packs@)
    }

    /// No packs.
    pub fn new() -> (r: MiniPacks)
        ensures
            r.wf(),
            r.packs@.len() == 0,
            r.net_update_time_count == 0,
    {
        MiniPacks { packs: Vec::new(), net_update_time_count: 0 }
    }

    /// Packs spawned at the pack spawn markers among the named map markers
    /// `markers`, in marker order.
    pub fn create_from_map(markers: &Vec<(String, Point)>) -> (r: MiniPacks)
        requires
            markers@.len() < MAX_PACKS,
            forall|i: int| 0 <= i < markers@.len() ==> (#[trigger] markers@[i]).1.in_bounds(),
        ensures
            r.wf(),
            r.net_update_time_count == 0,
            spawned_from(r.packs@, spawn_points_of(markers@)),
    {
        let spawns = pack_spawn_points(markers);
        proof {
            lemma_spawn_points_from(markers@);
        }
        let mut result = MiniPacks::new();
        result.spawn(&spawns);
        assert(result.packs@.skip(0) =~= result.packs@);
        result
    }

    /// Adds a freshly spawned pack at each of `spawns`, in order, after the
    /// packs already in play.
    pub fn spawn(&mut self, spawns: &Vec<Point>)
        requires
            old(self).wf(),
            old(self).packs@.len() + spawns@.len() < MAX_PACKS,
            forall|i: int| 0 <= i < spawns@.len() ==> (#[trigger] spawns@[i]).in_bounds(),
        ensures
            final(self).wf(),
            final(self).net_update_time_count == old(self).net_update_time_count,
            final(self).packs@.len() == old(self).packs@.len() + spawns@.len(),
            final(self).packs@.take(old(self).packs@.len() as int) == old(self).packs@,
            spawned_from(final(self).packs@.skip(old(self).packs@.len() as int), spawns@),
    {
        let ghost n0 = self.packs@.len() as int;
        let mut i: usize = 0;
        while i < spawns.len()
            invariant
                i <= spawns@.len(),
                self.wf(),
                n0 == old(self).packs@.len(),
                n0 + spawns@.len() < MAX_PACKS,
                forall|k: int| 0 <= k < spawns@.len() ==> (#[trigger] spawns@[k]).in_bounds(),
                self.net_update_time_count == old(self).net_update_time_count,
                self.packs@.len() == n0 + i,
                self.packs@.take(n0) == old(self).packs@,
                spawned_from(self.packs@.skip(n0), spawns@.take(i as int)),
            decreases spawns@.len() - i,
        {
            let p = spawn_pack(spawns[i]);
            let ghost before = self.packs@;
            self.packs.push(p);
            assert(self.packs@.take(n0) =~= before.take(n0));
            assert(self.packs@.skip(n0) =~= before.skip(n0).push(p));
            assert(spawns@.take(i as int + 1) =~= spawns@.take(i as int).push(spawns@[i as int]));
            i = i + 1;
        }
        assert(spawns@.take(i as int) =~= spawns@);
    }

    /// The owner of each pack, in list order.
    pub fn owner_list(&self) -> (r: Vec<Option<u8>>)
        ensures
            r@ == self.owners(),
    {
        let mut r: Vec<Option<u8>> = Vec::new();
        let mut i: usize = 0;
        while i < self.packs.len()
            invariant
                i <= self.packs@.len(),
                r@ == owners_of(self.packs@.take(i as int)),
            decreases self.packs@.len() - i,
        {
            assert(owners_of(self.packs@.take(i as int + 1)) =~= owners_of(self.packs@.take(i as int)).push(
                self.packs@[i as int].owner,
            ));
            r.push(self.packs[i].owner);
            i = i + 1;
        }
        assert(self.packs@.take(i as int) =~= self.packs@);
        r
    }

    /// Whether no player in `player_pack_counts` is counted for more packs
    /// than they own here: what an arbitration tick needs to start from.
    pub fn counts_within(&self, player_pack_counts: &PlayerPackCounts) -> (r: bool)
        requires
            player_pack_counts.wf(),
        ensures
            r == player_pack_counts.bounded_by(self.owners()),
    {
        let owned = PlayerPackCounts::from_owners(&self.owner_list());
        let mut p: usize = 0;
        while p < 256
            invariant
                p <= 256,
                owned.wf(),
                player_pack_counts.wf(),
                owned.matches_owners(self.owners()),
                forall|q: u8| q < p ==> #[trigger] player_pack_counts.count_of(q) <= owned_count(self.owners(), q),
            decreases 256 - p,
        {
            if player_pack_counts.get(p as u8) > owned.get(p as u8) {
                assert(owned.count_of(p as u8) == owned_count(self.owners(), p as u8));
                return false;
            }
            assert(owned.count_of(p as u8) == owned_count(self.owners(), p as u8));
            p = p + 1;
        }
        assert forall|q: u8| #[trigger] player_pack_counts.count_of(q) <= owned_count(self.owners(), q) by {
            assert(q < p);
        }
        true
    }

    /// Empties the pack list.
    pub fn clear(&mut self)
        requires
            old(self).wf(),
        ensures
            final(self).wf(),
            final(self).packs@.len() == 0,
            final(self).net_update_time_count == old(self).net_update_time_count,
    {
        self.packs.clear();
    }

    /// Host side: adds `time_delta` microseconds to the snapshot clock. Once
    /// it reaches `SERVER_UPDATE_INTERVAL`, the clock restarts from zero and
    /// the replicated state of every pack is returned, in list order;
    /// otherwise `None`.
    pub fn server_update_msg(&mut self, time_delta: u64) -> (r: Option<Vec<MiniPackUpdate>>)
        requires
            old(self).wf(),
        ensures
            final(self).wf(),
            final(self).packs == old(self).packs,
            old(self).net_update_time_count + time_delta >= SERVER_UPDATE_INTERVAL ==> {
                &&& final(self).net_update_time_count == 0
                &&& r.is_some()
                &&& r.unwrap()@.len() == old(self).packs@.len()
                &&& forall|i: int| 0 <= i < r.unwrap()@.len()
                    ==> #[trigger] r.unwrap()@[i] == update_of(old(self).packs@[i])
            },
            old(self).net_update_time_count + time_delta < SERVER_UPDATE_INTERVAL ==> {
                &&& final(self).net_update_time_count == old(self).net_update_time_count + time_delta
                &&& r.is_none()
            },
    {
        self.net_update_time_count = self.net_update_time_count.saturating_add(time_delta);
        if self.net_update_time_count >= SERVER_UPDATE_INTERVAL {
            self.net_update_time_count = 0;
            let mut updates: Vec<MiniPackUpdate> = Vec::new();
            let mut i: usize = 0;
            while i < self.packs.len()
                invariant
                    i <= self.packs@.len(),
                    self.packs == old(self).packs,
                    updates@.len() == i,
                    forall|k: int| 0 <= k < i ==> #[trigger] updates@[k] == update_of(self.packs@[k]),
                decreases self.packs@.len() - i,
            {
                let p = &self.packs[i];
                updates.push(MiniPackUpdate { position: p.position, yaw: p.yaw, owner: p.owner, is_moving: p.is_moving });
                i = i + 1;
            }
            Some(updates)
        } else {
            None
        }
    }

    /// Observer side: applies a snapshot, matched by position in the list.
    /// Each pack with a counterpart in `updates` takes its position and
    /// heading as the new interpolation target and its owner and motion flag
    /// as they are; the other packs, and extra updates, are left alone.
    pub fn client_update_msg(&mut self, updates: &Vec<MiniPackUpdate>)
        requires
            old(self).wf(),
            forall|i: int| 0 <= i < updates@.len() ==> (#[trigger] updates@[i]).in_bounds(),
        ensures
            final(self).wf(),
            final(self).net_update_time_count == old(self).net_update_time_count,
            final(self).packs@.len() == old(self).packs@.len(),
            forall|i: int| 0 <= i < final(self).packs@.len() ==> {
                let a = old(self).packs@[i];
                let b = #[trigger] final(self).packs@[i];
                &&& b.position == a.position
                &&& b.yaw == a.yaw
                &&& b.members == a.members
                &&& b.trailing_player_distance == a.trailing_player_distance
                &&& if i < updates@.len() {
                    let u = updates@[i];
                    &&& b.owner == u.owner
                    &&& b.is_moving == u.is_moving
                    &&& b.interpolation.time_count == 0
                    &&& b.interpolation.updates@ == (if a.interpolation.updates@.len() < 2 {
                        a.interpolation.updates@.push(PosYawValue { pos: u.position, yaw: u.yaw })
                    } else {
                        seq![a.interpolation.updates@[1], PosYawValue { pos: u.position, yaw: u.yaw }]
                    })
                } else {
                    b == a
                }
            },
    {
        let mut i: usize = 0;
        while i < self.packs.len() && i < updates.len()
            invariant
                i <= self.packs@.len(),
                i <= updates@.len(),
                self.wf(),
                self.net_update_time_count == old(self).net_update_time_count,
                self.packs@.len() == old(self).packs@.len(),
                forall|k: int| 0 <= k < updates@.len() ==> (#[trigger] updates@[k]).in_bounds(),
                forall|k: int| 0 <= k < self.packs@.len() ==> {
                    let a = old(self).packs@[k];
                    let b = #[trigger] self.packs@[k];
                    &&& b.position == a.position
                    &&& b.yaw == a.yaw
                    &&& b.members == a.members
                    &&& b.trailing_player_distance == a.trailing_player_distance
                    &&& if k < i {
                        let u = updates@[k];
                        &&& b.owner == u.owner
                        &&& b.is_moving == u.is_moving
                        &&& b.interpolation.time_count == 0
                        &&& b.interpolation.updates@ == (if a.interpolation.updates@.len() < 2 {
                            a.interpolation.updates@.push(PosYawValue { pos: u.position, yaw: u.yaw })
                        } else {
                            seq![a.interpolation.updates@[1], PosYawValue { pos: u.position, yaw: u.yaw }]
                        })
                    } else {
                        b == a
                    }
                },
            decreases self.packs@.len() - i,
        {
            let u = updates[i];
            let pack = &mut self.packs[i];
            pack.interpolation.post_update(PosYawValue { pos: u.position, yaw: u.yaw });
            pack.owner = u.owner;
            pack.is_moving = u.is_moving;
            i = i + 1;
        }
    }

    /// One authoritative arbitration tick: every present player, in order of
    /// identifier (`players[pid]` holds the position of player `pid`, `None`
    /// when absent), is arbitrated against every pack in list order.
    /// Each pack keeps one owner or none; a new owner is always a present
    /// player; an unowned pack that no present player is within pickup
    /// distance of stays as it was; counts stay within (or equal to) what
    /// the owners give.
    pub fn players_server_update(&mut self, players: &Vec<Option<Point>>, player_pack_counts: &mut PlayerPackCounts)
        requires
            old(self).wf(),
            players@.len() == 256,
            forall|p: int| 0 <= p < 256 && #[trigger] players@[p].is_some() ==> players@[p].unwrap().in_bounds(),
            old(player_pack_counts).wf(),
            old(player_pack_counts).bounded_by(old(self).owners()),
        ensures
            final(self).wf(),
            final(player_pack_counts).wf(),
            final(self).packs@.len() == old(self).packs@.len(),
            final(self).net_update_time_count == old(self).net_update_time_count,
            (final(self).packs@, final(player_pack_counts)@) == tick(
                old(self).packs@,
                players@,
                old(player_pack_counts)@,
                256,
            ),
            final(player_pack_counts).bounded_by(final(self).owners()),
            old(player_pack_counts).matches_owners(old(self).owners())
                ==> final(player_pack_counts).matches_owners(final(self).owners()),
            forall|j: int| 0 <= j < final(self).packs@.len() ==> {
                let a = old(self).packs@[j];
                let b = #[trigger] final(self).packs@[j];
                &&& b.members == a.members
                &&& b.interpolation == a.interpolation
                &&& (b.owner == a.owner || owned_by_present(b.owner, players@, 256))
                &&& (a.owner.is_none() && far_from_players(a.position, players@, 256) ==> b == a)
            },
    {
        let ghost old_packs = self.packs@;
        let ghost old_counts = player_pack_counts@;
        let mut k: usize = 0;
        while k < 256
            invariant
                0 <= k <= 256,
                old_counts == old(player_pack_counts)@,
                (self.packs@, player_pack_counts@) == tick(old_packs, players@, old_counts, k as nat),
                self.wf(),
                player_pack_counts.wf(),
                players@.len() == 256,
                forall|p: int| 0 <= p < 256 && #[trigger] players@[p].is_some() ==> players@[p].unwrap().in_bounds(),
                self.packs@.len() == old_packs.len(),
                self.net_update_time_count == old(self).net_update_time_count,
                player_pack_counts.bounded_by(self.owners()),
                old(player_pack_counts).matches_owners(owners_of(old_packs))
                    ==> player_pack_counts.matches_owners(self.owners()),
                forall|j: int| 0 <= j < self.packs@.len() ==> {
                    let a = old_packs[j];
                    let b = #[trigger] self.packs@[j];
                    &&& b.members == a.members
                    &&& b.interpolation == a.interpolation
                    &&& (b.owner == a.owner || owned_by_present(b.owner, players@, k as int))
                    &&& (a.owner.is_none() && far_from_players(a.position, players@, k as int) ==> b == a)
                },
            decreases 256 - k,
        {
            let pid: u8 = k as u8;
            let ghost start_packs = self.packs@;
            let ghost start_counts = player_pack_counts@;
            if let Some(q) = players[k] {
                let mut j: usize = 0;
                while j < self.packs.len()
                    invariant
                        0 <= k < 256,
                        start_packs.len() == self.packs@.len(),
                        (start_packs, start_counts) == tick(old_packs, players@, old_counts, k as nat),
                        (self.packs@, player_pack_counts@) == step_packs(start_packs, pid, q, start_counts, j as nat),
                        pid == k,
                        players@[k as int] == Some(q),
                        q.in_bounds(),
                        j <= self.packs@.len(),
                        self.wf(),
                        player_pack_counts.wf(),
                        players@.len() == 256,
                        self.packs@.len() == old_packs.len(),
                        self.net_update_time_count == old(self).net_update_time_count,
                        player_pack_counts.bounded_by(self.owners()),
                        old(player_pack_counts).matches_owners(owners_of(old_packs))
                            ==> player_pack_counts.matches_owners(self.owners()),
                        forall|i: int| 0 <= i < self.packs@.len() ==> {
                            let a = old_packs[i];
                            let b = #[trigger] self.packs@[i];
                            &&& b.members == a.members
                            &&& b.interpolation == a.interpolation
                            &&& (b.owner == a.owner || owned_by_present(b.owner, players@, k + 1))
                            &&& (a.owner.is_none() && far_from_players(a.position, players@, k as int)
                                && (i < j ==> !within_pickup(a.position, q)) ==> b == a)
                        },
                    decreases self.packs@.len() - j,
                {
                    let ghost owners0 = self.owners();
                    let ghost c0 = *player_pack_counts;
                    let ghost before = self.packs@[j as int];
                    let ghost before_all = self.packs@;
                    proof {
                        lemma_owned_count_le_len(owners0, pid);
                        assert(player_pack_counts.count_of(pid) <= owned_count(owners0, pid));
                    }
                    self.packs[j].player_server_update(pid, q, player_pack_counts);
                    proof {
                        let after = self.packs@[j as int];
                        assert(self.packs@ == before_all.update(j as int, after));
                        assert(self.owners() =~= owners0.update(j as int, after.owner));
                        lemma_step_counts(owners0, j as int, after.owner, pid, c0, *player_pack_counts);
                    }
                    j = j + 1;
                }
            }
            k = k + 1;
        }
    }
}

} // verus!
