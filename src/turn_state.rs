//! The turn-phase state machine and what each tick runs.
use vstd::prelude::*;
use crate::system::{input_steps, monster_steps, player_steps, Pipeline, Step, SystemKind};

verus! {

#[derive(Clone, Copy, Debug, PartialEq, Eq, Structural)]
pub enum TurnState {
    AwaitingInput,
    PlayerTurn,
    MonsterTurn,
    GameOver,
    Victory,
}

/// What happened in the world during one tick, as the phase-writing systems see it.
#[derive(Clone, Copy, Debug, PartialEq, Eq, Structural)]
pub struct TurnEvents {
    /// The player gave a command this tick.
    pub command: bool,
    /// The player's health is at or below zero.
    pub player_dead: bool,
    /// The player stands on the amulet.
    pub amulet_reached: bool,
}

/// What a tick does for a phase.
#[derive(Clone, Copy, Debug, PartialEq, Eq, Structural)]
pub enum TickAction {
    RunInput,
    RunPlayer,
    RunMonster,
    ShowGameOver,
    ShowVictory,
}

pub open spec fn spec_tick_action(phase: TurnState) -> TickAction {
    match phase {
        TurnState::AwaitingInput => TickAction::RunInput,
        TurnState::PlayerTurn => TickAction::RunPlayer,
        TurnState::MonsterTurn => TickAction::RunMonster,
        TurnState::GameOver => TickAction::ShowGameOver,
        TurnState::Victory => TickAction::ShowVictory,
    }
}

/// The pipeline or screen a tick runs in `phase`.
pub fn tick_action(phase: TurnState) -> (a: TickAction)
    ensures
        a == spec_tick_action(phase),
{
    match phase {
        TurnState::AwaitingInput => TickAction::RunInput,
        TurnState::PlayerTurn => TickAction::RunPlayer,
        TurnState::MonsterTurn => TickAction::RunMonster,
        TurnState::GameOver => TickAction::ShowGameOver,
        TurnState::Victory => TickAction::ShowVictory,
    }
}

pub open spec fn spec_after_input(phase: TurnState, command: bool) -> TurnState {
    if command && phase == TurnState::AwaitingInput {
        TurnState::PlayerTurn
    } else {
        phase
    }
}

/// A command given while awaiting input starts the player's turn.
pub fn after_input(phase: TurnState, command: bool) -> (r: TurnState)
    ensures
        r == spec_after_input(phase, command),
{
    if command && phase == TurnState::AwaitingInput {
        TurnState::PlayerTurn
    } else {
        phase
    }
}

pub open spec fn spec_end_turn(phase: TurnState, player_dead: bool, amulet_reached: bool) -> TurnState {
    if player_dead {
        TurnState::GameOver
    } else if amulet_reached {
        TurnState::Victory
    } else {
        match phase {
            TurnState::PlayerTurn => TurnState::MonsterTurn,
            TurnState::MonsterTurn => TurnState::AwaitingInput,
            _ => phase,
        }
    }
}

/// The phase at the end of a turn: a dead player ends the game, a player on the
/// amulet wins it, and otherwise the player's turn passes to the monsters and theirs
/// back to awaiting input.
pub fn end_turn(phase: TurnState, player_dead: bool, amulet_reached: bool) -> (r: TurnState)
    ensures
        r == spec_end_turn(phase, player_dead, amulet_reached),
{
    if player_dead {
        TurnState::GameOver
    } else if amulet_reached {
        TurnState::Victory
    } else {
        match phase {
            TurnState::PlayerTurn => TurnState::MonsterTurn,
            TurnState::MonsterTurn => TurnState::AwaitingInput,
            _ => phase,
        }
    }
}

pub open spec fn spec_step_phase(step: Step, phase: TurnState, ev: TurnEvents) -> TurnState {
    match step {
        Step::Run(SystemKind::PlayerInput) => spec_after_input(phase, ev.command),
        Step::Run(SystemKind::EndTurn) => spec_end_turn(phase, ev.player_dead, ev.amulet_reached),
        _ => phase,
    }
}

/// The phase after running the first `n` steps from `phase`.
pub open spec fn spec_phase_after(steps: Seq<Step>, n: int, phase: TurnState, ev: TurnEvents) -> TurnState
    decreases n,
{
    if n <= 0 {
        phase
    } else {
        spec_step_phase(steps[n - 1], spec_phase_after(steps, n - 1, phase, ev), ev)
    }
}

/// The phase after a pipeline has run from `phase`: only reading input and ending the
/// turn write it.
pub fn phase_after_pipeline(pipeline: &Pipeline, phase: TurnState, ev: TurnEvents) -> (r: TurnState)
    ensures
        r == spec_phase_after(pipeline.steps@, pipeline.steps@.len() as int, phase, ev),
{
    let mut current = phase;
    let mut i: usize = 0;
    while i < pipeline.steps.len()
        invariant
            i <= pipeline.steps@.len(),
            current == spec_phase_after(pipeline.steps@, i as int, phase, ev),
        decreases pipeline.steps@.len() - i,
    {
        current = match pipeline.steps[i] {
            Step::Run(SystemKind::PlayerInput) => after_input(current, ev.command),
            Step::Run(SystemKind::EndTurn) => end_turn(current, ev.player_dead, ev.amulet_reached),
            _ => current,
        };
        i = i + 1;
    }
    current
}

/// The phase after one tick in `phase`: the pipeline that `phase` selects runs; on the
/// game-over and victory screens a restart returns to awaiting input.
pub open spec fn spec_tick(phase: TurnState, ev: TurnEvents, restart: bool) -> TurnState {
    match phase {
        TurnState::AwaitingInput => spec_phase_after(input_steps(), input_steps().len() as int, phase, ev),
        TurnState::PlayerTurn => spec_phase_after(player_steps(), player_steps().len() as int, phase, ev),
        TurnState::MonsterTurn => spec_phase_after(monster_steps(), monster_steps().len() as int, phase, ev),
        _ => if restart {
            TurnState::AwaitingInput
        } else {
            phase
        },
    }
}

/// The phase on the game-over and victory screens: a restart returns to awaiting input
/// (and the world is generated anew); other phases are left as they are.
pub fn after_screen(phase: TurnState, restart: bool) -> (r: TurnState)
    ensures
        (phase == TurnState::GameOver || phase == TurnState::Victory) && restart ==> r
            == TurnState::AwaitingInput,
        !((phase == TurnState::GameOver || phase == TurnState::Victory) && restart) ==> r == phase,
{
    if restart && (phase == TurnState::GameOver || phase == TurnState::Victory) {
        TurnState::AwaitingInput
    } else {
        phase
    }
}

/// Without a death or the amulet, and with a command each time input is awaited, the
/// phase cycles from awaiting input to the player's turn, to the monsters' turn and
/// back, indefinitely.
pub proof fn lemma_turn_cycle(ev: TurnEvents, restart: bool)
    requires
        ev.command,
        !ev.player_dead,
        !ev.amulet_reached,
    ensures
        spec_tick(TurnState::AwaitingInput, ev, restart) == TurnState::PlayerTurn,
        spec_tick(TurnState::PlayerTurn, ev, restart) == TurnState::MonsterTurn,
        spec_tick(TurnState::MonsterTurn, ev, restart) == TurnState::AwaitingInput,
        forall|n: nat| #[trigger] spec_cycle(n, ev, restart) == TurnState::AwaitingInput,
{
    reveal_with_fuel(spec_phase_after, 11);
    assert forall|n: nat| #[trigger] spec_cycle(n, ev, restart) == TurnState::AwaitingInput by {
        lemma_cycle_n(n, ev, restart);
    }
}

/// The phase after `n` rounds of three ticks from awaiting input.
pub open spec fn spec_cycle(n: nat, ev: TurnEvents, restart: bool) -> TurnState
    decreases n,
{
    if n == 0 {
        TurnState::AwaitingInput
    } else {
        spec_tick(spec_tick(spec_tick(spec_cycle((n - 1) as nat, ev, restart), ev, restart), ev, restart), ev, restart)
    }
}

proof fn lemma_cycle_n(n: nat, ev: TurnEvents, restart: bool)
    requires
        ev.command,
        !ev.player_dead,
        !ev.amulet_reached,
    ensures
        spec_cycle(n, ev, restart) == TurnState::AwaitingInput,
    decreases n,
{
    reveal_with_fuel(spec_phase_after, 11);
    if n > 0 {
        lemma_cycle_n((n - 1) as nat, ev, restart);
    }
}

} // verus!
