//! The themes: how the tiles of a level are drawn.

use crate::glyph::to_cp437;
use crate::map::TileType;
use vstd::prelude::*;

verus! {

/// The theme of a built dungeon.
#[derive(Clone, Copy, PartialEq, Eq, Structural, Debug)]
pub struct DungeonTheme;

/// The theme of a forest.
#[derive(Clone, Copy, PartialEq, Eq, Structural, Debug)]
pub struct ForestTheme;

/// The theme of a level, one of a fixed set.
#[derive(Clone, Copy, PartialEq, Eq, Structural, Debug)]
pub enum Theme {
    Dungeon(DungeonTheme),
    Forest(ForestTheme),
}

/// The character that stands for a tile in the dungeon.
pub open spec fn dungeon_char(tile_type: TileType) -> char {
    match tile_type {
        TileType::Floor => '.',
        TileType::Wall => '#',
        TileType::Exit => '>',
    }
}

/// The character that stands for a tile in the forest.
pub open spec fn forest_char(tile_type: TileType) -> char {
    match tile_type {
        TileType::Floor => ';',
        TileType::Wall => '"',
        TileType::Exit => '>',
    }
}

impl DungeonTheme {
    /// The dungeon theme.
    pub fn new() -> (theme: Theme)
        ensures
            theme == Theme::Dungeon(DungeonTheme),
    {
        Theme::Dungeon(DungeonTheme)
    }

    /// The glyph of a tile in the dungeon: the code of its character,
    /// which is ASCII.
    pub fn tile_to_render(&self, tile_type: TileType) -> (glyph: u16)
        ensures
            glyph == dungeon_char(tile_type) as u16,
    {
        match tile_type {
            TileType::Floor => to_cp437('.'),
            TileType::Wall => to_cp437('#'),
            TileType::Exit => to_cp437('>'),
        }
    }
}

impl ForestTheme {
    /// The forest theme.
    pub fn new() -> (theme: Theme)
        ensures
            theme == Theme::Forest(ForestTheme),
    {
        Theme::Forest(ForestTheme)
    }

    /// The glyph of a tile in the forest: the code of its character,
    /// which is ASCII.
    pub fn tile_to_render(&self, tile_type: TileType) -> (glyph: u16)
        ensures
            glyph == forest_char(tile_type) as u16,
    {
        match tile_type {
            TileType::Floor => to_cp437(';'),
            TileType::Wall => to_cp437('"'),
            TileType::Exit => to_cp437('>'),
        }
    }
}

impl Theme {
    /// The character that stands for a tile in this theme.
    pub open spec fn char_of(self, tile_type: TileType) -> char {
        match self {
            Theme::Dungeon(_) => dungeon_char(tile_type),
            Theme::Forest(_) => forest_char(tile_type),
        }
    }

    /// The glyph of a tile in this theme.
    pub fn tile_to_render(&self, tile_type: TileType) -> (glyph: u16)
        ensures
            glyph == self.char_of(tile_type) as u16,
    {
        match self {
            Theme::Dungeon(theme) => theme.tile_to_render(tile_type),
            Theme::Forest(theme) => theme.tile_to_render(tile_type),
        }
    }
}

} // verus!
