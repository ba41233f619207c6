use terra_incognita::actor::Color;
use terra_incognita::data_read::living_structs::{Living, LivingData, RawSprite};
use terra_incognita::data_read::tile_structs::{Tile, TileData};
use terra_incognita::data_read::{color_from_hex, named_living, named_tile, EntityDatabase};
use terra_incognita::map::{TileType, WorldTile};

fn db_with_tiles(all: Vec<Tile>) -> EntityDatabase {
    let mut edb = EntityDatabase::empty();
    edb.tiles = TileData { all };
    edb
}

fn stone_wall_record() -> Tile {
    Tile {
        name: "Stone Wall".to_string(),
        is_transparent: Some(false),
        is_blocking: Some(true),
        sprite: Some(RawSprite {
            glyph: 35,
            fg: "#F4A460".to_string(),
            bg: "#8B2323".to_string(),
        }),
        destructible_info: None,
        tile_type: Some("wall".to_string()),
    }
}

#[test]
fn lookup_is_idempotent() {
    let edb = db_with_tiles(vec![stone_wall_record()]);
    let first = named_tile(&edb, "Stone Wall");
    let second = named_tile(&edb, "Stone Wall");
    assert_eq!(first, second);
}

#[test]
fn lookup_builds_the_described_tile() {
    let edb = db_with_tiles(vec![stone_wall_record()]);
    let t = named_tile(&edb, "Stone Wall");
    assert!(t.is_blocking);
    assert!(!t.is_transparent);
    assert_eq!(t.tile_type, TileType::Wall);
    assert_eq!(t.sprite.glyph, 35);
    assert_eq!(t.sprite.fg, Color { r: 0xF4, g: 0xA4, b: 0x60 });
    assert_eq!(t.sprite.bg, Color { r: 0x8B, g: 0x23, b: 0x23 });
}

#[test]
fn unknown_names_degrade_to_the_placeholder() {
    let edb = db_with_tiles(vec![stone_wall_record()]);
    let t = named_tile(&edb, "No Such Tile");
    assert_eq!(t, WorldTile::empty());
    assert_eq!(t.tile_type, TileType::Unknown);
    assert_eq!(t.sprite.glyph, 63);
}

#[test]
fn later_records_shadow_earlier_ones() {
    let mut newer = stone_wall_record();
    newer.is_blocking = Some(false);
    let edb = db_with_tiles(vec![stone_wall_record(), newer]);
    let t = named_tile(&edb, "Stone Wall");
    assert!(!t.is_blocking);
}

#[test]
fn absent_fields_keep_placeholder_values() {
    let bare = Tile {
        name: "Bare".to_string(),
        is_transparent: None,
        is_blocking: None,
        sprite: None,
        destructible_info: None,
        tile_type: None,
    };
    let edb = db_with_tiles(vec![bare]);
    let t = named_tile(&edb, "Bare");
    assert!(!t.is_blocking);
    assert!(!t.is_transparent);
    assert_eq!(t.tile_type, TileType::Unknown);
    assert_eq!(t.sprite, WorldTile::empty().sprite);
}

#[test]
fn unparsable_colors_fall_back_visibly() {
    let mut odd = stone_wall_record();
    odd.sprite = Some(RawSprite {
        glyph: 35,
        fg: "nonsense".to_string(),
        bg: "#F5F5F5".to_string(),
    });
    let edb = db_with_tiles(vec![odd]);
    let t = named_tile(&edb, "Stone Wall");
    assert_eq!(t.sprite.fg, Color { r: 128, g: 0, b: 128 });
    assert_eq!(t.sprite.bg, Color { r: 245, g: 245, b: 245 });
}

#[test]
fn hex_colors_parse_with_and_without_the_hash() {
    assert_eq!(color_from_hex("#00ff00"), Some(Color { r: 0, g: 255, b: 0 }));
    assert_eq!(color_from_hex("00FF00"), Some(Color { r: 0, g: 255, b: 0 }));
    assert_eq!(color_from_hex("#8b2323"), Some(Color { r: 0x8B, g: 0x23, b: 0x23 }));
    assert_eq!(color_from_hex("#12345"), None);
    assert_eq!(color_from_hex("#1234567"), None);
    assert_eq!(color_from_hex("#12g456"), None);
    assert_eq!(color_from_hex(""), None);
}

#[test]
fn living_lookup_finds_records_by_name() {
    let mut edb = EntityDatabase::empty();
    edb.living = LivingData {
        all: vec![Living {
            name: "Centipede".to_string(),
            sprite: None,
            view_range: Some(6),
            breed: Some("basic".to_string()),
            player: None,
        }],
    };
    let found = named_living(&edb, "Centipede").expect("the record exists");
    assert_eq!(found.view_range, Some(6));
    assert!(named_living(&edb, "Mole").is_none());
}
