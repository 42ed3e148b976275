use wolfpack::counts::PlayerPackCounts;
use wolfpack::geometry::Point;
use wolfpack::menu::{MainMenuAction, MenuResult};
use wolfpack::minipack::MiniPacks;
use wolfpack::settings::{next_resolution_index, previous_resolution_index, resolution_option, Settings};
use wolfpack::stage::{GameStage, GameStageManager, GameStageUpdate};

fn spawns() -> Vec<Point> {
    vec![Point::new(0, 0), Point::new(10_000, 0)]
}

#[test]
fn stage_cycle() {
    let spawns = spawns();
    let mut m = GameStageManager::new(0);
    let mut packs = MiniPacks::new();
    let mut counts = PlayerPackCounts::new();
    assert_eq!(m.server_update(1000, 0, &mut packs, &mut counts, &spawns), None);
    assert_eq!(m.current_stage, GameStage::Standby);
    assert_eq!(
        m.server_update(2000, 1, &mut packs, &mut counts, &spawns),
        Some(GameStageUpdate::Warmup { time_remaining: 5 })
    );
    assert_eq!(m.server_update(2500, 1, &mut packs, &mut counts, &spawns), None);
    assert_eq!(
        m.server_update(3000, 1, &mut packs, &mut counts, &spawns),
        Some(GameStageUpdate::Warmup { time_remaining: 4 })
    );
    assert!(packs.packs.is_empty());
    assert_eq!(
        m.server_update(7000, 1, &mut packs, &mut counts, &spawns),
        Some(GameStageUpdate::InProgress { time_remaining: 60 })
    );
    assert_eq!(packs.packs.len(), 2);
    assert_eq!(
        m.server_update(37_000, 1, &mut packs, &mut counts, &spawns),
        Some(GameStageUpdate::InProgress { time_remaining: 30 })
    );
    assert_eq!(
        m.server_update(66_000, 1, &mut packs, &mut counts, &spawns),
        Some(GameStageUpdate::InProgress { time_remaining: 1 })
    );
    assert_eq!(m.server_update(67_000, 1, &mut packs, &mut counts, &spawns), Some(GameStageUpdate::Finished));
    assert_eq!(m.server_update(78_000, 1, &mut packs, &mut counts, &spawns), None);
    assert_eq!(packs.packs.len(), 2);
    assert_eq!(
        m.server_update(79_000, 1, &mut packs, &mut counts, &spawns),
        Some(GameStageUpdate::Warmup { time_remaining: 5 })
    );
    assert!(packs.packs.is_empty());
    assert_eq!(m.current_stage, GameStage::Warmup);
}

#[test]
fn early_finish_with_sole_holder() {
    let spawns = spawns();
    let mut m = GameStageManager::new(0);
    let mut packs = MiniPacks::new();
    let mut counts = PlayerPackCounts::new();
    m.server_update(1000, 2, &mut packs, &mut counts, &spawns);
    m.server_update(6000, 2, &mut packs, &mut counts, &spawns);
    assert_eq!(m.current_stage, GameStage::InProgress);
    let mut players = vec![None; 256];
    players[1] = Some(Point::new(0, 0));
    packs.players_server_update(&players, &mut counts);
    assert_eq!(counts.holders(), 1);
    assert_eq!(
        m.server_update(36_000, 2, &mut packs, &mut counts, &spawns),
        Some(GameStageUpdate::InProgress { time_remaining: 30 })
    );
    assert_eq!(m.server_update(37_000, 2, &mut packs, &mut counts, &spawns), Some(GameStageUpdate::Finished));
}

#[test]
fn no_early_finish_without_holders() {
    let spawns = spawns();
    let mut m = GameStageManager::new(0);
    let mut packs = MiniPacks::new();
    let mut counts = PlayerPackCounts::new();
    m.server_update(1000, 2, &mut packs, &mut counts, &spawns);
    m.server_update(6000, 2, &mut packs, &mut counts, &spawns);
    assert_eq!(
        m.server_update(45_000, 2, &mut packs, &mut counts, &spawns),
        Some(GameStageUpdate::InProgress { time_remaining: 21 })
    );
}

#[test]
fn round_start_clears_counts() {
    let spawns = spawns();
    let mut m = GameStageManager::new(0);
    let mut packs = MiniPacks::new();
    let mut counts = PlayerPackCounts::from_owners(&vec![Some(3)]);
    m.server_update(1000, 1, &mut packs, &mut counts, &spawns);
    m.server_update(6000, 1, &mut packs, &mut counts, &spawns);
    assert_eq!(counts.get(3), 0);
    assert!(packs.packs.iter().all(|p| p.owner.is_none()));
}

#[test]
fn observer_warmup_twice_is_idempotent() {
    let spawns = spawns();
    let mut m = GameStageManager::new(0);
    m.current_stage = GameStage::Finished;
    let mut packs = MiniPacks::new();
    packs.spawn(&spawns);
    m.client_update(GameStageUpdate::Warmup { time_remaining: 3 }, &spawns, &mut packs);
    assert!(packs.packs.is_empty());
    assert_eq!(m.current_stage, GameStage::Warmup);
    m.client_update(GameStageUpdate::Warmup { time_remaining: 3 }, &spawns, &mut packs);
    assert!(packs.packs.is_empty());
    assert_eq!(m.current_stage, GameStage::Warmup);
    // a warmup while packs exist outside a finished round keeps them
    m.current_stage = GameStage::InProgress;
    packs.spawn(&spawns);
    m.client_update(GameStageUpdate::Warmup { time_remaining: 3 }, &spawns, &mut packs);
    m.client_update(GameStageUpdate::Warmup { time_remaining: 3 }, &spawns, &mut packs);
    assert_eq!(packs.packs.len(), 2);
}

#[test]
fn observer_round_start_spawns_once() {
    let spawns = spawns();
    let mut m = GameStageManager::new(0);
    let mut packs = MiniPacks::new();
    m.client_update(GameStageUpdate::InProgress { time_remaining: 60 }, &spawns, &mut packs);
    assert_eq!(packs.packs.len(), 2);
    let first_yaw = packs.packs[0].yaw;
    m.client_update(GameStageUpdate::InProgress { time_remaining: 59 }, &spawns, &mut packs);
    assert_eq!(packs.packs.len(), 2);
    assert_eq!(packs.packs[0].yaw, first_yaw);
    m.client_update(GameStageUpdate::Finished, &spawns, &mut packs);
    assert_eq!(m.current_stage, GameStage::Finished);
    assert_eq!(packs.packs.len(), 2);
}

#[test]
fn settings_and_menu_values() {
    let s = Settings::default();
    assert_eq!(s.resolution, [1280, 720]);
    assert!(!s.windowed);
    assert_eq!(resolution_option(0), [1920, 1080]);
    assert_eq!(resolution_option(2), [720, 480]);
    assert_eq!(next_resolution_index(2), 0);
    assert_eq!(next_resolution_index(0), 1);
    assert_eq!(previous_resolution_index(0), 2);
    assert_eq!(previous_resolution_index(1), 0);
    let r = MenuResult::SettingsChange(s);
    assert!(matches!(r, MenuResult::SettingsChange(Settings { windowed: false, .. })));
    assert_ne!(MainMenuAction::Start, MainMenuAction::Quit);
}
