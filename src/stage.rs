use vstd::prelude::*;
use crate::counts::{PlayerPackCounts, holders_in};
use crate::geometry::Point;
use crate::minipack::{MiniPack, MiniPacks, MAX_PACKS, spawned_from};

verus! {

/// Length of the warmup, in seconds.
pub const WARMUP_SECONDS: u64 = 5;

/// Length of a round, in seconds.
pub const GAME_SECONDS: u64 = 60;

/// Time the result stays up before the next warmup, in seconds.
pub const FINISH_SECONDS: u64 = 12;

/// After this many seconds a round ends early once a single player holds packs.
pub const EARLY_FINISH_SECONDS: u64 = 30;

/// Phase of the match.
#[derive(Clone, Copy, Debug, PartialEq, Eq, Structural)]
pub enum GameStage {
    Standby,
    Warmup,
    InProgress,
    Finished,
}

/// Phase event sent from the host to observers.
#[derive(Clone, Copy, Debug, PartialEq, Eq, Structural)]
pub enum GameStageUpdate {
    Warmup { time_remaining: u8 },
    InProgress { time_remaining: u16 },
    Finished,
}

/// The phase an event announces.
pub open spec fn stage_of(u: GameStageUpdate) -> GameStage {
    match u {
        GameStageUpdate::Warmup { .. } => GameStage::Warmup,
        GameStageUpdate::InProgress { .. } => GameStage::InProgress,
        GameStageUpdate::Finished => GameStage::Finished,
    }
}

/// Whole seconds from `since` to `now` (milliseconds); zero if `now` is earlier.
pub open spec fn elapsed_secs(now: u64, since: u64) -> int {
    if now >= since {
        (now - since) as int / 1000
    } else {
        0
    }
}

/// The round ends: its time is up, or past the early-finish mark exactly one
/// player holds packs.
pub open spec fn round_over(elapsed: int, holders: nat) -> bool {
    elapsed >= GAME_SECONDS || (elapsed > EARLY_FINISH_SECONDS && holders == 1)
}

/// The host's once-a-second decision: the next phase and the event to
/// broadcast, from the current phase, the whole seconds spent in it, the
/// number of connected players and the number of players holding packs.
pub open spec fn stage_decision(stage: GameStage, elapsed: int, player_count: nat, holders: nat) -> (
    GameStage,
    Option<GameStageUpdate>,
) {
    match stage {
        GameStage::Standby => if player_count > 0 {
            (GameStage::Warmup, Some(GameStageUpdate::Warmup { time_remaining: WARMUP_SECONDS as u8 }))
        } else {
            (GameStage::Standby, None)
        },
        GameStage::Warmup => if elapsed >= WARMUP_SECONDS {
            (
                GameStage::InProgress,
                Some(GameStageUpdate::InProgress { time_remaining: GAME_SECONDS as u16 }),
            )
        } else {
            (
                GameStage::Warmup,
                Some(GameStageUpdate::Warmup { time_remaining: (WARMUP_SECONDS - elapsed) as u8 }),
            )
        },
        GameStage::InProgress => if round_over(elapsed, holders) {
            (GameStage::Finished, Some(GameStageUpdate::Finished))
        } else {
            (
                GameStage::InProgress,
                Some(GameStageUpdate::InProgress { time_remaining: (GAME_SECONDS - elapsed) as u16 }),
            )
        },
        GameStage::Finished => if elapsed >= FINISH_SECONDS {
            (GameStage::Warmup, Some(GameStageUpdate::Warmup { time_remaining: WARMUP_SECONDS as u8 }))
        } else {
            (GameStage::Finished, None)
        },
    }
}

/// What an observer ends with after applying `u` in phase `s0` with packs
/// `ps0`: the announced phase; on a warmup after a finished round, no packs;
/// on a round start with no packs, the packs spawned at `spawns`; otherwise
/// the packs as they were.
pub open spec fn client_applied(
    s0: GameStage,
    ps0: Seq<MiniPack>,
    u: GameStageUpdate,
    spawns: Seq<Point>,
    s1: GameStage,
    ps1: Seq<MiniPack>,
) -> bool {
    &&& s1 == stage_of(u)
    &&& match u {
        GameStageUpdate::Warmup { .. } => if s0 == GameStage::Finished {
            ps1.len() == 0
        } else {
            ps1 == ps0
        },
        GameStageUpdate::InProgress { .. } => if ps0.len() == 0 {
            spawned_from(ps1, spawns)
        } else {
            ps1 == ps0
        },
        GameStageUpdate::Finished => ps1 == ps0,
    }
}

/// Applying the same phase event twice leaves an observer where applying it
/// once did: same phase, same packs (none cleared or spawned twice).
pub proof fn lemma_client_apply_idempotent(
    s0: GameStage,
    ps0: Seq<MiniPack>,
    u: GameStageUpdate,
    spawns: Seq<Point>,
    s1: GameStage,
    ps1: Seq<MiniPack>,
    s2: GameStage,
    ps2: Seq<MiniPack>,
)
    requires
        client_applied(s0, ps0, u, spawns, s1, ps1),
        client_applied(s1, ps1, u, spawns, s2, ps2),
    ensures
        s2 == s1,
        ps2 == ps1,
{
    if let GameStageUpdate::InProgress { .. } = u {
        if ps1.len() == 0 {
            assert(ps2 =~= ps1);
        }
    }
}

/// The match lifecycle, driven by an explicit clock in milliseconds.
pub struct GameStageManager {
    pub current_stage: GameStage,
    /// When the current phase began.
    pub stage_start_time: u64,
    /// When the host last evaluated the phase.
    pub last_update_time: u64,
}

impl GameStageManager {
    /// Standby, with both clocks at `now`.
    pub fn new(now: u64) -> (r: GameStageManager)
        ensures
            r.current_stage == GameStage::Standby,
            r.stage_start_time == now,
            r.last_update_time == now,
    {
        GameStageManager { current_stage: GameStage::Standby, stage_start_time: now, last_update_time: now }
    }

    /// Starts a round: clears packs and counts, spawns packs at
    /// `pack_spawns` and enters `InProgress`.
    fn server_start_game(
        &mut self,
        now: u64,
        packs: &mut MiniPacks,
        player_pack_counts: &mut PlayerPackCounts,
        pack_spawns: &Vec<Point>,
    ) -> (r: GameStageUpdate)
        requires
            old(packs).wf(),
            old(player_pack_counts).wf(),
            pack_spawns@.len() < MAX_PACKS,
            forall|i: int| 0 <= i < pack_spawns@.len() ==> (#[trigger] pack_spawns@[i]).in_bounds(),
        ensures
            final(packs).wf(),
            final(player_pack_counts).wf(),
            final(player_pack_counts).is_empty_counts(),
            spawned_from(final(packs).packs@, pack_spawns@),
            final(packs).net_update_time_count == old(packs).net_update_time_count,
            final(self).current_stage == GameStage::InProgress,
            final(self).stage_start_time == now,
            final(self).last_update_time == old(self).last_update_time,
            r == (GameStageUpdate::InProgress { time_remaining: GAME_SECONDS as u16 }),
    {
        packs.clear();
        player_pack_counts.clear();
        packs.spawn(pack_spawns);
        assert(packs.packs@.skip(0) =~= packs.packs@);
        self.current_stage = GameStage::InProgress;
        self.stage_start_time = now;
        GameStageUpdate::InProgress { time_remaining: GAME_SECONDS as u16 }
    }

    /// Host side, called every tick at time `now` (milliseconds) with the
    /// number of connected players. At most once per elapsed second it
    /// decides the next phase as `stage_decision` says and returns the event
    /// to broadcast; a new phase starts its clock at `now`. Entering a round
    /// clears packs and counts and spawns packs at `pack_spawns`; leaving a
    /// finished round for a warmup clears packs and counts. Between
    /// evaluations it returns `None` and changes nothing.
    pub fn server_update(
        &mut self,
        now: u64,
        player_count: usize,
        packs: &mut MiniPacks,
        player_pack_counts: &mut PlayerPackCounts,
        pack_spawns: &Vec<Point>,
    ) -> (r: Option<GameStageUpdate>)
        requires
            old(packs).wf(),
            old(player_pack_counts).wf(),
            pack_spawns@.len() < MAX_PACKS,
            forall|i: int| 0 <= i < pack_spawns@.len() ==> (#[trigger] pack_spawns@[i]).in_bounds(),
        ensures
            final(packs).wf(),
            final(player_pack_counts).wf(),
            final(packs).net_update_time_count == old(packs).net_update_time_count,
            elapsed_secs(now, old(self).last_update_time) < 1 ==> {
                &&& r.is_none()
                &&& *final(self) == *old(self)
                &&& *final(packs) == *old(packs)
                &&& *final(player_pack_counts) == *old(player_pack_counts)
            },
            elapsed_secs(now, old(self).last_update_time) >= 1 ==> {
                let (s, u) = stage_decision(
                    old(self).current_stage,
                    elapsed_secs(now, old(self).stage_start_time),
                    player_count as nat,
                    holders_in(old(player_pack_counts)@),
                );
                let s0 = old(self).current_stage;
                &&& r == u
                &&& final(self).current_stage == s
                &&& final(self).last_update_time == now
                &&& final(self).stage_start_time == (if s != s0 {
                    now
                } else {
                    old(self).stage_start_time
                })
                &&& (s0 == GameStage::Warmup && s == GameStage::InProgress) ==> {
                    &&& final(player_pack_counts).is_empty_counts()
                    &&& spawned_from(final(packs).packs@, pack_spawns@)
                }
                &&& (s0 == GameStage::Finished && s == GameStage::Warmup) ==> {
                    &&& final(player_pack_counts).is_empty_counts()
                    &&& final(packs).packs@.len() == 0
                }
                &&& !((s0 == GameStage::Warmup && s == GameStage::InProgress) || (s0
                    == GameStage::Finished && s == GameStage::Warmup)) ==> {
                    &&& *final(packs) == *old(packs)
                    &&& *final(player_pack_counts) == *old(player_pack_counts)
                }
            },
    {
        let since_update: u64 = now.saturating_sub(self.last_update_time);
        if since_update < 1000 {
            return None;
        }
        self.last_update_time = now;
        let elapsed_secs: u64 = now.saturating_sub(self.stage_start_time) / 1000;
        match self.current_stage {
            GameStage::Standby => {
                if player_count > 0 {
                    self.current_stage = GameStage::Warmup;
                    self.stage_start_time = now;
                    Some(GameStageUpdate::Warmup { time_remaining: WARMUP_SECONDS as u8 })
                } else {
                    None
                }
            },
            GameStage::Warmup => {
                if elapsed_secs >= WARMUP_SECONDS {
                    Some(self.server_start_game(now, packs, player_pack_counts, pack_spawns))
                } else {
                    Some(GameStageUpdate::Warmup { time_remaining: (WARMUP_SECONDS - elapsed_secs) as u8 })
                }
            },
            GameStage::InProgress => {
                if (elapsed_secs > EARLY_FINISH_SECONDS && player_pack_counts.holders() == 1)
                    || elapsed_secs >= GAME_SECONDS {
                    self.current_stage = GameStage::Finished;
                    self.stage_start_time = now;
                    Some(GameStageUpdate::Finished)
                } else {
                    Some(GameStageUpdate::InProgress { time_remaining: (GAME_SECONDS - elapsed_secs) as u16 })
                }
            },
            GameStage::Finished => {
                if elapsed_secs >= FINISH_SECONDS {
                    self.current_stage = GameStage::Warmup;
                    self.stage_start_time = now;
                    packs.clear();
                    player_pack_counts.clear();
                    Some(GameStageUpdate::Warmup { time_remaining: WARMUP_SECONDS as u8 })
                } else {
                    None
                }
            },
        }
    }

    /// Observer side: applies a phase event as `client_applied` says. A
    /// warmup after a finished round clears the packs; a round start with no
    /// packs spawns them at `pack_spawns`; nothing else touches the packs.
    pub fn client_update(&mut self, update: GameStageUpdate, pack_spawns: &Vec<Point>, packs: &mut MiniPacks)
        requires
            old(packs).wf(),
            pack_spawns@.len() < MAX_PACKS,
            forall|i: int| 0 <= i < pack_spawns@.len() ==> (#[trigger] pack_spawns@[i]).in_bounds(),
        ensures
            final(packs).wf(),
            final(packs).net_update_time_count == old(packs).net_update_time_count,
            final(self).stage_start_time == old(self).stage_start_time,
            final(self).last_update_time == old(self).last_update_time,
            client_applied(
                old(self).current_stage,
                old(packs).packs@,
                update,
                pack_spawns@,
                final(self).current_stage,
                final(packs).packs@,
            ),
    {
        match update {
            GameStageUpdate::Warmup { .. } => {
                if let GameStage::Finished = self.current_stage {
                    packs.clear();
                }
                self.current_stage = GameStage::Warmup;
            },
            GameStageUpdate::InProgress { .. } => {
                if packs.packs.len() == 0 {
                    packs.spawn(pack_spawns);
                    assert(packs.packs@.skip(0) =~= packs.packs@);
                }
                self.current_stage = GameStage::InProgress;
            },
            GameStageUpdate::Finished => {
                self.current_stage = GameStage::Finished;
            },
        }
    }
}

} // verus!
