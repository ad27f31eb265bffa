//! Components attached to entities.
use vstd::prelude::*;
use std::collections::HashSet;
use bracket_lib::prelude::ColorPair;
use legion::Entity;
use crate::geometry::Point;

verus! {

#[verifier::external_type_specification]
#[verifier::external_body]
pub struct ExColorPair(ColorPair);

#[verifier::external_type_specification]
#[verifier::external_body]
pub struct ExEntity(Entity);

/// How an entity is drawn: its colours and the glyph of its font.
#[derive(Clone, Copy, Debug, PartialEq)]
pub struct Render {
    pub color: ColorPair,
    pub glyph: u16,
}

/// Marks the player.
#[derive(Clone, Copy, Debug, PartialEq, Eq, Structural)]
pub struct Player;

/// Marks a monster.
#[derive(Clone, Copy, Debug, PartialEq, Eq, Structural)]
pub struct Enemy;

/// Marks an entity that wanders at random.
#[derive(Clone, Copy, Debug, PartialEq, Eq, Structural)]
pub struct MovingRandomly;

/// A request that `entity` move to `destination`.
#[derive(Clone, Copy, Debug, PartialEq)]
pub struct WantsToMove {
    pub entity: Entity,
    pub destination: Point,
}

/// A request that `attacker` strike `victim`.
#[derive(Clone, Copy, Debug, PartialEq)]
pub struct WantsToAttack {
    pub attacker: Entity,
    pub victim: Entity,
}

#[derive(Clone, Copy, Debug, PartialEq, Eq, Structural)]
pub struct Health {
    pub current: i32,
    pub max: i32,
}

#[derive(Clone, PartialEq)]
pub struct Name(pub String);

/// Marks a monster that hunts the player.
#[derive(Clone, Copy, Debug, PartialEq, Eq, Structural)]
pub struct ChasingPlayer;

/// Marks an entity that can be picked up.
#[derive(Clone, Copy, Debug, PartialEq, Eq, Structural)]
pub struct Item;

/// Marks the amulet that wins the game.
#[derive(Clone, Copy, Debug, PartialEq, Eq, Structural)]
pub struct AmuletOfYala;

/// The tiles an entity sees; `is_dirty` asks for them to be computed again.
#[derive(Debug, PartialEq)]
pub struct FeildOfView {
    pub visible_tiles: HashSet<Point>,
    pub radius: i32,
    pub is_dirty: bool,
}

/// Relies on `HashSet::clone`: the copy holds the same points.
#[verifier::external_body]
fn copy_visible(s: &HashSet<Point>) -> (r: HashSet<Point>)
    ensures
        r@ == s@,
{
    s.clone()
}

impl Clone for FeildOfView {
    fn clone(&self) -> (f: FeildOfView) {
        FeildOfView {
            visible_tiles: copy_visible(&self.visible_tiles),
            radius: self.radius,
            is_dirty: self.is_dirty,
        }
    }
}

impl FeildOfView {
    /// A view of `radius` with nothing seen yet, marked for computing.
    pub fn new(radius: i32) -> (f: FeildOfView)
        ensures
            f.visible_tiles@ == Set::<Point>::empty(),
            f.radius == radius,
            f.is_dirty,
    {
        FeildOfView { visible_tiles: HashSet::new(), radius, is_dirty: true }
    }

    /// The same view, marked for computing again.
    pub fn clone_dirty(&self) -> (f: FeildOfView)
        ensures
            f.visible_tiles@ == self.visible_tiles@,
            f.radius == self.radius,
            f.is_dirty,
    {
        FeildOfView { visible_tiles: copy_visible(&self.visible_tiles), radius: self.radius, is_dirty: true }
    }
}

} // verus!
