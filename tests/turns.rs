use dungeon_crawl::components::FeildOfView;
use dungeon_crawl::geometry::Point;
use dungeon_crawl::system::{build_input_schedule, build_monster_schedule, build_player_schedule, Step, SystemKind};
use dungeon_crawl::turn_state::{after_input, after_screen, end_turn, phase_after_pipeline, tick_action, TickAction, TurnEvents, TurnState};

const CALM: TurnEvents = TurnEvents { command: true, player_dead: false, amulet_reached: false };

#[test]
fn pipelines_have_their_barriers() {
    let input = build_input_schedule();
    assert_eq!(input.steps, vec![
        Step::Run(SystemKind::PlayerInput),
        Step::Flush,
        Step::Run(SystemKind::MapRender),
        Step::Run(SystemKind::EntityRender),
        Step::Run(SystemKind::Hud),
    ]);
    let player = build_player_schedule();
    assert_eq!(player.steps.len(), 8);
    assert_eq!(player.steps.iter().filter(|s| **s == Step::Flush).count(), 2);
    assert_eq!(player.steps[7], Step::Run(SystemKind::EndTurn));
    let monster = build_monster_schedule();
    assert_eq!(monster.steps.len(), 10);
    assert_eq!(monster.steps[0], Step::Run(SystemKind::RandomMove));
    assert_eq!(monster.steps.iter().filter(|s| **s == Step::Flush).count(), 3);
}

#[test]
fn phases_cycle_without_terminal_events() {
    let input = build_input_schedule();
    let player = build_player_schedule();
    let monster = build_monster_schedule();
    let mut phase = TurnState::AwaitingInput;
    for _ in 0..5 {
        assert_eq!(tick_action(phase), TickAction::RunInput);
        phase = phase_after_pipeline(&input, phase, CALM);
        assert_eq!(phase, TurnState::PlayerTurn);
        assert_eq!(tick_action(phase), TickAction::RunPlayer);
        phase = phase_after_pipeline(&player, phase, CALM);
        assert_eq!(phase, TurnState::MonsterTurn);
        assert_eq!(tick_action(phase), TickAction::RunMonster);
        phase = phase_after_pipeline(&monster, phase, CALM);
        assert_eq!(phase, TurnState::AwaitingInput);
    }
}

#[test]
fn awaiting_input_waits_for_a_command() {
    let input = build_input_schedule();
    let idle = TurnEvents { command: false, ..CALM };
    assert_eq!(phase_after_pipeline(&input, TurnState::AwaitingInput, idle), TurnState::AwaitingInput);
    assert_eq!(after_input(TurnState::AwaitingInput, true), TurnState::PlayerTurn);
    assert_eq!(after_input(TurnState::MonsterTurn, true), TurnState::MonsterTurn);
}

#[test]
fn end_of_turn_detects_death_and_victory() {
    assert_eq!(end_turn(TurnState::PlayerTurn, true, false), TurnState::GameOver);
    assert_eq!(end_turn(TurnState::MonsterTurn, false, true), TurnState::Victory);
    assert_eq!(end_turn(TurnState::MonsterTurn, true, true), TurnState::GameOver);
    assert_eq!(end_turn(TurnState::PlayerTurn, false, false), TurnState::MonsterTurn);
    assert_eq!(end_turn(TurnState::MonsterTurn, false, false), TurnState::AwaitingInput);
    let monster = build_monster_schedule();
    let lethal = TurnEvents { player_dead: true, ..CALM };
    assert_eq!(phase_after_pipeline(&monster, TurnState::MonsterTurn, lethal), TurnState::GameOver);
}

#[test]
fn terminal_screens_restart_on_request() {
    assert_eq!(tick_action(TurnState::GameOver), TickAction::ShowGameOver);
    assert_eq!(tick_action(TurnState::Victory), TickAction::ShowVictory);
    assert_eq!(after_screen(TurnState::GameOver, false), TurnState::GameOver);
    assert_eq!(after_screen(TurnState::GameOver, true), TurnState::AwaitingInput);
    assert_eq!(after_screen(TurnState::Victory, true), TurnState::AwaitingInput);
    assert_eq!(after_screen(TurnState::PlayerTurn, true), TurnState::PlayerTurn);
}

#[test]
fn field_of_view_starts_dirty_and_clones_dirty() {
    let mut fov = FeildOfView::new(8);
    assert!(fov.visible_tiles.is_empty());
    assert_eq!(fov.radius, 8);
    assert!(fov.is_dirty);
    fov.visible_tiles.insert(Point::new(1, 2));
    fov.is_dirty = false;
    let copy = fov.clone_dirty();
    assert!(copy.is_dirty);
    assert_eq!(copy.radius, 8);
    assert!(copy.visible_tiles.contains(&Point::new(1, 2)));
    assert_eq!(copy.visible_tiles.len(), 1);
    let same = fov.clone();
    assert!(!same.is_dirty);
}
