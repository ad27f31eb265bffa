//! The three pipelines of gameplay systems, as ordered steps with barriers.
use vstd::prelude::*;

verus! {

/// A gameplay system a pipeline runs.
#[derive(Clone, Copy, Debug, PartialEq, Eq, Structural)]
pub enum SystemKind {
    PlayerInput,
    MapRender,
    EntityRender,
    Hud,
    Movement,
    Collisions,
    RandomMove,
    EndTurn,
}

/// One step of a pipeline: run a system, or apply every structural edit queued so far
/// before any later step runs.
#[derive(Clone, Copy, Debug, PartialEq, Eq, Structural)]
pub enum Step {
    Run(SystemKind),
    Flush,
}

/// Steps run in order; the systems between two flushes touch disjoint data.
pub struct Pipeline {
    pub steps: Vec<Step>,
}

pub open spec fn input_steps() -> Seq<Step> {
    seq![
        Step::Run(SystemKind::PlayerInput),
        Step::Flush,
        Step::Run(SystemKind::MapRender),
        Step::Run(SystemKind::EntityRender),
        Step::Run(SystemKind::Hud),
    ]
}

pub open spec fn player_steps() -> Seq<Step> {
    seq![
        Step::Run(SystemKind::Movement),
        Step::Flush,
        Step::Run(SystemKind::Collisions),
        Step::Flush,
        Step::Run(SystemKind::MapRender),
        Step::Run(SystemKind::EntityRender),
        Step::Run(SystemKind::Hud),
        Step::Run(SystemKind::EndTurn),
    ]
}

pub open spec fn monster_steps() -> Seq<Step> {
    seq![
        Step::Run(SystemKind::RandomMove),
        Step::Flush,
        Step::Run(SystemKind::Movement),
        Step::Flush,
        Step::Run(SystemKind::Collisions),
        Step::Flush,
        Step::Run(SystemKind::MapRender),
        Step::Run(SystemKind::EntityRender),
        Step::Run(SystemKind::Hud),
        Step::Run(SystemKind::EndTurn),
    ]
}

/// A flush stands between the steps at `a` and `b`.
pub open spec fn barrier_between(steps: Seq<Step>, a: int, b: int) -> bool {
    exists|k: int| a < k < b && steps[k] == Step::Flush
}

/// Reads input, then, after a barrier, draws the map, the entities and the overlay.
pub fn build_input_schedule() -> (p: Pipeline)
    ensures
        p.steps@ == input_steps(),
{
    let steps = vec![
        Step::Run(SystemKind::PlayerInput),
        Step::Flush,
        Step::Run(SystemKind::MapRender),
        Step::Run(SystemKind::EntityRender),
        Step::Run(SystemKind::Hud),
    ];
    assert(steps@ =~= input_steps());
    Pipeline { steps }
}

/// Moves, barrier, resolves collisions, barrier, draws, and ends the turn.
pub fn build_player_schedule() -> (p: Pipeline)
    ensures
        p.steps@ == player_steps(),
{
    let steps = vec![
        Step::Run(SystemKind::Movement),
        Step::Flush,
        Step::Run(SystemKind::Collisions),
        Step::Flush,
        Step::Run(SystemKind::MapRender),
        Step::Run(SystemKind::EntityRender),
        Step::Run(SystemKind::Hud),
        Step::Run(SystemKind::EndTurn),
    ];
    assert(steps@ =~= player_steps());
    Pipeline { steps }
}

/// Decides random moves, barrier, moves, barrier, resolves collisions, barrier, draws,
/// and ends the turn.
pub fn build_monster_schedule() -> (p: Pipeline)
    ensures
        p.steps@ == monster_steps(),
{
    let steps = vec![
        Step::Run(SystemKind::RandomMove),
        Step::Flush,
        Step::Run(SystemKind::Movement),
        Step::Flush,
        Step::Run(SystemKind::Collisions),
        Step::Flush,
        Step::Run(SystemKind::MapRender),
        Step::Run(SystemKind::EntityRender),
        Step::Run(SystemKind::Hud),
        Step::Run(SystemKind::EndTurn),
    ];
    assert(steps@ =~= monster_steps());
    Pipeline { steps }
}

/// In the player and monster pipelines, a barrier separates each stage that edits the
/// world from the next stage that reads those edits: movement from collisions, and
/// random-move decisions from movement.
pub proof fn lemma_pipeline_barriers()
    ensures
        barrier_between(player_steps(), 0, 2),
        barrier_between(player_steps(), 2, 4),
        barrier_between(monster_steps(), 0, 2),
        barrier_between(monster_steps(), 2, 4),
        barrier_between(monster_steps(), 4, 6),
        player_steps()[0] == Step::Run(SystemKind::Movement),
        player_steps()[2] == Step::Run(SystemKind::Collisions),
        monster_steps()[0] == Step::Run(SystemKind::RandomMove),
        monster_steps()[2] == Step::Run(SystemKind::Movement),
        monster_steps()[4] == Step::Run(SystemKind::Collisions),
{
    assert(player_steps()[1] == Step::Flush);
    assert(player_steps()[3] == Step::Flush);
    assert(monster_steps()[1] == Step::Flush);
    assert(monster_steps()[3] == Step::Flush);
    assert(monster_steps()[5] == Step::Flush);
}

} // verus!
