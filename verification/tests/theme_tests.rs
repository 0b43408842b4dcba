use dungeoncrawl::map::TileType;
use dungeoncrawl::map_builder::themes::{DungeonTheme, ForestTheme, Theme};

#[test]
fn dungeon_theme_glyphs() {
    let theme = DungeonTheme;
    assert_eq!(theme.tile_to_render(TileType::Floor), 46);
    assert_eq!(theme.tile_to_render(TileType::Wall), 35);
    assert_eq!(theme.tile_to_render(TileType::Exit), 62);
}

#[test]
fn forest_theme_glyphs() {
    let theme = ForestTheme;
    assert_eq!(theme.tile_to_render(TileType::Floor), 59);
    assert_eq!(theme.tile_to_render(TileType::Wall), 34);
    assert_eq!(theme.tile_to_render(TileType::Exit), 62);
}

#[test]
fn theme_constructors_pick_their_variant() {
    assert_eq!(DungeonTheme::new(), Theme::Dungeon(DungeonTheme));
    assert_eq!(ForestTheme::new(), Theme::Forest(ForestTheme));
    assert_ne!(DungeonTheme::new(), ForestTheme::new());
}

#[test]
fn theme_dispatches_to_its_variant() {
    assert_eq!(DungeonTheme::new().tile_to_render(TileType::Floor), 46);
    assert_eq!(ForestTheme::new().tile_to_render(TileType::Floor), 59);
    assert_eq!(
        DungeonTheme::new().tile_to_render(TileType::Wall),
        bracket_lib::prelude::to_cp437('#')
    );
    assert_eq!(
        ForestTheme::new().tile_to_render(TileType::Wall),
        bracket_lib::prelude::to_cp437('"')
    );
}
