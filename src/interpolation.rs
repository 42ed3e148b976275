use vstd::prelude::*;
use crate::geometry::{Point, COORD_LIMIT, ONE_AND_HALF_PI_MICRO, TWO_PI_MICRO};

verus! {

/// Largest absolute yaw, in microradians, that a replicated sample may hold.
pub const YAW_LIMIT: i64 = 1_000_000_000;

/// Shortest span, in microseconds, over which one step between two samples
/// is spread: the snapshot interval.
pub const MIN_UPDATE_DURATION: u64 = 100_000;

/// A replicated pose of a pack: ground position and yaw in microradians.
#[derive(Clone, Copy, Debug, PartialEq, Eq, Structural)]
pub struct PosYawValue {
    pub pos: Point,
    pub yaw: i64,
}

impl PosYawValue {
    pub open spec fn in_bounds(&self) -> bool {
        self.pos.in_bounds() && -YAW_LIMIT <= self.yaw <= YAW_LIMIT
    }
}

/// `a + (b - a) * num / den`, the quotient rounded toward `a`.
pub open spec fn lerp(a: int, b: int, num: int, den: int) -> int {
    if b >= a {
        a + (b - a) * num / den
    } else {
        a - (a - b) * num / den
    }
}

/// The two yaws to blend: where they lie more than 1.5π apart, the smaller
/// one is raised by 2π so that the blend crosses the `0 / 2π` seam.
pub open spec fn seam_adjusted(a: int, b: int) -> (int, int) {
    let diff = if a >= b { a - b } else { b - a };
    if diff > ONE_AND_HALF_PI_MICRO {
        if b > a {
            (a + TWO_PI_MICRO, b)
        } else {
            (a, b + TWO_PI_MICRO)
        }
    } else {
        (a, b)
    }
}

/// `v` held within `[-limit, limit]`.
pub open spec fn clamp(v: int, limit: int) -> int {
    if v > limit {
        limit
    } else if v < -limit {
        -limit
    } else {
        v
    }
}

/// Largest absolute yaw a blend yields.
pub const YAW_BLEND_LIMIT: i64 = 2_000_000_000;

/// Linear blend of two integers at progress `num / den` (beyond 1 it runs on
/// past `b`), held within `[-limit, limit]`.
fn lerp_exec(a: i64, b: i64, num: u64, den: u64, limit: i64) -> (r: i64)
    requires
        0 < limit <= YAW_BLEND_LIMIT,
        -limit <= a <= limit,
        -limit <= b <= limit,
        0 < den,
    ensures
        r == clamp(lerp(a as int, b as int, num as int, den as int), limit as int),
{
    let d: u128 = if b >= a { (b - a) as u128 } else { (a - b) as u128 };
    assert(d * (num as u128) <= 4_000_000_000 * 0xffff_ffff_ffff_ffff) by (nonlinear_arith)
        requires
            d <= 4_000_000_000,
            num <= 0xffff_ffff_ffff_ffff,
    ;
    let q: u128 = d * (num as u128) / (den as u128);
    proof {
        vstd::arithmetic::div_mod::lemma_div_pos_is_pos((d * (num as u128)) as int, den as int);
    }
    if b >= a {
        let room: u128 = (limit - a) as u128;
        if q >= room {
            limit
        } else {
            a + q as i64
        }
    } else {
        let room: u128 = (a + limit) as u128;
        if q >= room {
            -limit
        } else {
            a - q as i64
        }
    }
}

/// Blend of two poses at progress `num / den`: each coordinate linearly,
/// held within `COORD_LIMIT`; the yaw linearly after the seam adjustment,
/// held within `YAW_BLEND_LIMIT`. A progress beyond 1 runs on past `b`.
pub fn linear_interpolate(a: &PosYawValue, b: &PosYawValue, num: u64, den: u64) -> (r: PosYawValue)
    requires
        a.in_bounds(),
        b.in_bounds(),
        0 < den,
    ensures
        r == interpolated(*a, *b, num as int, den as int),
        r.pos.in_bounds(),
{
    let diff: i64 = if a.yaw >= b.yaw { a.yaw - b.yaw } else { b.yaw - a.yaw };
    let mut a_yaw: i64 = a.yaw;
    let mut b_yaw: i64 = b.yaw;
    if diff > ONE_AND_HALF_PI_MICRO {
        if b.yaw > a.yaw {
            a_yaw = a_yaw + TWO_PI_MICRO;
        } else {
            b_yaw = b_yaw + TWO_PI_MICRO;
        }
    }
    let x: i64 = lerp_exec(a.pos.x, b.pos.x, num, den, COORD_LIMIT);
    let z: i64 = lerp_exec(a.pos.z, b.pos.z, num, den, COORD_LIMIT);
    let yaw: i64 = lerp_exec(a_yaw, b_yaw, num, den, YAW_BLEND_LIMIT);
    PosYawValue { pos: Point { x, z }, yaw }
}

/// Observer-side smoothing of one replicated pack: the last two samples
/// received and the time spent since the latest one.
pub struct InterpolationHelper {
    /// The samples, oldest first; at most two.
    pub updates: Vec<PosYawValue>,
    /// Span over which the step from the older to the newer sample is spread.
    pub last_update_duration: u64,
    /// Microseconds since the newer sample arrived.
    pub time_count: u64,
}

impl InterpolationHelper {
    pub open spec fn wf(&self) -> bool {
        &&& self.updates@.len() <= 2
        &&& forall|i: int| 0 <= i < self.updates@.len() ==> (#[trigger] self.updates@[i]).in_bounds()
        &&& self.last_update_duration >= MIN_UPDATE_DURATION
    }

    pub fn new() -> (r: InterpolationHelper)
        ensures
            r.wf(),
            r.updates@.len() == 0,
            r.time_count == 0,
    {
        InterpolationHelper {
            updates: Vec::new(),
            last_update_duration: MIN_UPDATE_DURATION,
            time_count: 0,
        }
    }

    /// Takes a newly received sample as the target; the previous target
    /// becomes the source. The step to it is spread over the time since the
    /// previous sample, and over at least `MIN_UPDATE_DURATION`.
    pub fn post_update(&mut self, update: PosYawValue)
        requires
            old(self).wf(),
            update.in_bounds(),
        ensures
            final(self).wf(),
            final(self).updates@ == (if old(self).updates@.len() < 2 {
                old(self).updates@.push(update)
            } else {
                seq![old(self).updates@[1], update]
            }),
            final(self).last_update_duration == (if old(self).time_count > MIN_UPDATE_DURATION {
                old(self).time_count
            } else {
                MIN_UPDATE_DURATION
            }),
            final(self).time_count == 0,
    {
        self.updates.push(update);
        if self.updates.len() > 2 {
            self.updates.remove(0);
            assert(self.updates@ =~= seq![old(self).updates@[1], update]);
        }
        self.last_update_duration = if self.time_count > MIN_UPDATE_DURATION {
            self.time_count
        } else {
            MIN_UPDATE_DURATION
        };
        self.time_count = 0;
    }

    /// Advances the clock by `time_delta` microseconds and returns the
    /// blended pose, or `None` while fewer than two samples have arrived.
    /// Progress is the time since the newer sample over the span: it runs
    /// from the older sample (0) to the newer one (1) and on beyond it while
    /// no further sample arrives. The clock saturates.
    pub fn value(&mut self, time_delta: u64) -> (r: Option<PosYawValue>)
        requires
            old(self).wf(),
        ensures
            final(self).wf(),
            final(self).updates == old(self).updates,
            final(self).last_update_duration == old(self).last_update_duration,
            final(self).time_count as int == (if old(self).time_count + time_delta > u64::MAX {
                u64::MAX as int
            } else {
                old(self).time_count + time_delta
            }),
            old(self).updates@.len() < 2 ==> r.is_none(),
            r.is_some() ==> r.unwrap().pos.in_bounds(),
            old(self).updates@.len() == 2 ==> r == Some(
                interpolated(
                    old(self).updates@[0],
                    old(self).updates@[1],
                    final(self).time_count as int,
                    final(self).last_update_duration as int,
                ),
            ),
    {
        self.time_count = self.time_count.saturating_add(time_delta);
        if self.updates.len() < 2 {
            None
        } else {
            Some(linear_interpolate(&self.updates[0], &self.updates[1], self.time_count, self.last_update_duration))
        }
    }
}

/// The pose that `linear_interpolate` gives for `a`, `b` at `num / den`.
pub open spec fn interpolated(a: PosYawValue, b: PosYawValue, num: int, den: int) -> PosYawValue {
    let (ya, yb) = seam_adjusted(a.yaw as int, b.yaw as int);
    PosYawValue {
        pos: Point {
            x: clamp(lerp(a.pos.x as int, b.pos.x as int, num, den), COORD_LIMIT as int) as i64,
            z: clamp(lerp(a.pos.z as int, b.pos.z as int, num, den), COORD_LIMIT as int) as i64,
        },
        yaw: clamp(lerp(ya, yb, num, den), YAW_BLEND_LIMIT as int) as i64,
    }
}

} // verus!
