//! The component payloads that entities carry.

use crate::map::Point;
use legion::Entity;
use std::collections::HashSet;
use vstd::prelude::*;

verus! {

/// A colour as red, green and blue.
#[derive(Clone, Copy, PartialEq, Eq, Structural, Debug)]
pub struct Rgb {
    pub r: u8,
    pub g: u8,
    pub b: u8,
}

impl Rgb {
    /// White.
    pub fn white() -> (color: Rgb)
        ensures
            color == (Rgb { r: 255, g: 255, b: 255 }),
    {
        Rgb { r: 255, g: 255, b: 255 }
    }

    /// Black.
    pub fn black() -> (color: Rgb)
        ensures
            color == (Rgb { r: 0, g: 0, b: 0 }),
    {
        Rgb { r: 0, g: 0, b: 0 }
    }
}

/// A foreground and a background colour.
#[derive(Clone, Copy, PartialEq, Eq, Structural, Debug)]
pub struct ColorPair {
    pub fg: Rgb,
    pub bg: Rgb,
}

impl ColorPair {
    /// The pair of `fg` on `bg`.
    pub fn new(fg: Rgb, bg: Rgb) -> (pair: ColorPair)
        ensures
            pair == (ColorPair { fg, bg }),
    {
        ColorPair { fg, bg }
    }
}

/// How an entity is drawn: its colours and its glyph in code page 437.
#[derive(Clone, Copy, PartialEq, Eq, Structural, Debug)]
pub struct Render {
    pub color: ColorPair,
    pub glyph: u16,
}

/// Marks the player and counts the levels they have left behind.
#[derive(Clone, Copy, PartialEq, Eq, Structural, Debug)]
pub struct Player {
    pub map_level: u32,
}

impl Player {
    /// Takes the player a level down: the level counts one more, and the
    /// position is `start`. Returns the new level.
    pub fn descend(&mut self, pos: &mut Point, start: Point) -> (level: u32)
        requires
            old(self).map_level < u32::MAX,
        ensures
            final(self).map_level == old(self).map_level + 1,
            *final(pos) == start,
            level == final(self).map_level,
    {
        self.map_level += 1;
        pos.x = start.x;
        pos.y = start.y;
        self.map_level
    }
}

/// Marks a monster.
#[derive(Clone, Copy, PartialEq, Eq, Structural, Debug)]
pub struct Enemy;

/// Marks a monster that walks towards the player.
#[derive(Clone, Copy, PartialEq, Eq, Structural, Debug)]
pub struct ChasingPlayer;

/// Marks something that can be picked up.
#[derive(Clone, Copy, PartialEq, Eq, Structural, Debug)]
pub struct Item;

/// Marks the amulet that wins the game.
#[derive(Clone, Copy, PartialEq, Eq, Structural, Debug)]
pub struct AmuletOfYala;

/// Marks an item that reveals the level's map.
#[derive(Clone, Copy, PartialEq, Eq, Structural, Debug)]
pub struct ProvidesDungeonMap;

/// Marks an item that restores hit points.
#[derive(Clone, Copy, PartialEq, Eq, Structural, Debug)]
pub struct ProvidesHealing {
    pub amount: i32,
}

/// Hit points.
#[derive(Clone, Copy, PartialEq, Eq, Structural, Debug)]
pub struct Health {
    pub current: i32,
    pub max: i32,
}

/// The name shown for an entity.
#[derive(Debug)]
pub struct Name(pub String);

/// Links an item to the entity that holds it.
#[derive(Clone, Copy, Debug)]
pub struct Carried(pub Entity);

/// What a field of view holds, as plain values.
pub struct Sight {
    pub visible_tiles: Set<Point>,
    pub radius: i32,
    pub is_dirty: bool,
}

/// What an entity sees. A dirty field of view is computed anew before it
/// is used.
#[derive(Debug)]
pub struct FieldOfView {
    pub visible_tiles: HashSet<Point>,
    pub radius: i32,
    pub is_dirty: bool,
}

impl View for FieldOfView {
    type V = Sight;

    open spec fn view(&self) -> Sight {
        Sight {
            visible_tiles: self.visible_tiles@,
            radius: self.radius,
            is_dirty: self.is_dirty,
        }
    }
}

/// The field of view that sees nothing yet, within `radius`.
pub open spec fn fresh_sight(radius: i32) -> Sight {
    Sight { visible_tiles: Set::empty(), radius, is_dirty: true }
}

impl FieldOfView {
    /// A field of view of the given radius that sees nothing and is dirty.
    pub fn new(radius: i32) -> (fov: FieldOfView)
        ensures
            fov@ == fresh_sight(radius),
    {
        FieldOfView { visible_tiles: HashSet::new(), radius, is_dirty: true }
    }

    /// Marks the field of view as out of date.
    pub fn mark_dirty(&mut self)
        ensures
            final(self)@ == (Sight { is_dirty: true, ..old(self)@ }),
    {
        self.is_dirty = true;
    }
}

} // verus!
