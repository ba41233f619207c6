//! The tile and living-entity catalog: semantic names mapped to tile
//! records. The catalog is an explicitly constructed object threaded into
//! the generator by reference; loading it from disk is the surrounding
//! application's concern.
use vstd::prelude::*;

use crate::actor::{CharSprite, Color};
use crate::map::{TileType, WorldTile};

pub mod living_structs;
pub mod tile_structs;

use living_structs::{Living, LivingData, RawSprite};
use tile_structs::{Tile, TileData};

verus! {

/// Holds the externally loaded catalog records; lookups scan by name, the
/// later of two entries with equal names winning.
pub struct EntityDatabase {
    pub living: LivingData,
    pub tiles: TileData,
}

impl EntityDatabase {
    pub fn empty() -> (e: Self)
        ensures
            e.living.all.len() == 0,
            e.tiles.all.len() == 0,
    {
        Self { living: LivingData { all: Vec::new() }, tiles: TileData { all: Vec::new() } }
    }

    /// Installs freshly loaded catalog data wholesale.
    pub fn load(&mut self, data: EntityDatabase)
        ensures
            *final (self) == data,
    {
        *self = data;
    }
}

/// The value of one hex digit, or -1 for any other character.
pub open spec fn hex_val(c: char) -> int {
    if '0' as int <= c as int <= '9' as int {
        c as int - '0' as int
    } else if 'a' as int <= c as int <= 'f' as int {
        10 + c as int - 'a' as int
    } else if 'A' as int <= c as int <= 'F' as int {
        10 + c as int - 'A' as int
    } else {
        -1
    }
}

/// The digit characters of a hex color string, with an optional leading
/// '#' stripped.
pub open spec fn spec_hex_digits(s: Seq<char>) -> Seq<char> {
    if s.len() > 0 && s[0] == '#' {
        s.skip(1)
    } else {
        s
    }
}

/// Parses a color spelled as six hex digits, with an optional leading '#'.
pub open spec fn spec_color_from_hex(s: Seq<char>) -> Option<Color> {
    if spec_hex_digits(s).len() == 6 && (forall|i: int|
        0 <= i < 6 ==> hex_val(#[trigger] spec_hex_digits(s)[i]) >= 0) {
        Some(
            Color {
                r: (hex_val(spec_hex_digits(s)[0]) * 16 + hex_val(spec_hex_digits(s)[1])) as u8,
                g: (hex_val(spec_hex_digits(s)[2]) * 16 + hex_val(spec_hex_digits(s)[3])) as u8,
                b: (hex_val(spec_hex_digits(s)[4]) * 16 + hex_val(spec_hex_digits(s)[5])) as u8,
            },
        )
    } else {
        None
    }
}

fn hex_digit(c: char) -> (r: Option<u8>)
    ensures
        r matches Some(v) ==> v < 16 && hex_val(c) == v as int,
        r is None ==> hex_val(c) < 0,
{
    let u = c as u32;
    if u >= 48 && u <= 57 {
        Some((u - 48) as u8)
    } else if u >= 97 && u <= 102 {
        Some((u - 97 + 10) as u8)
    } else if u >= 65 && u <= 70 {
        Some((u - 65 + 10) as u8)
    } else {
        None
    }
}

/// Parses "#rrggbb" or "rrggbb" into a color; anything else is None.
pub fn color_from_hex(s: &str) -> (r: Option<Color>)
    ensures
        r == spec_color_from_hex(s@),
{
    let n = s.unicode_len();
    let off: usize = if n >= 1 && s.get_char(0) == '#' {
        1
    } else {
        0
    };
    if n < off || n - off != 6 {
        return None;
    }
    let ghost digits = spec_hex_digits(s@);
    assert(digits.len() == 6);
    let mut vals: Vec<u8> = Vec::new();
    let mut i: usize = 0;
    while i < 6
        invariant
            i <= 6,
            off + 6 == n,
            n == s@.len(),
            digits == spec_hex_digits(s@),
            off == (if s@.len() > 0 && s@[0] == '#' {
                1int
            } else {
                0int
            }),
            digits.len() == 6,
            vals.len() == i,
            forall|j: int| 0 <= j < i ==> hex_val(#[trigger] digits[j]) == vals[j] as int,
            forall|j: int| 0 <= j < i ==> vals[j] < 16,
        decreases 6 - i,
    {
        let c = s.get_char(off + i);
        assert(c == digits[i as int]);
        match hex_digit(c) {
            Some(v) => {
                vals.push(v);
            },
            None => {
                proof {
                    assert(hex_val(digits[i as int]) < 0);
                    assert(!(forall|k: int| 0 <= k < 6 ==> hex_val(#[trigger] digits[k]) >= 0));
                    assert(spec_color_from_hex(s@) is None);
                }
                return None;
            },
        }
        i = i + 1;
    }
    Some(
        Color {
            r: vals[0] * 16 + vals[1],
            g: vals[2] * 16 + vals[3],
            b: vals[4] * 16 + vals[5],
        },
    )
}

/// The sprite a raw record describes; colors that fail to parse fall back
/// to the placeholder purple-on-whitesmoke.
pub open spec fn spec_sprite_from(rs: RawSprite) -> CharSprite {
    CharSprite {
        glyph: rs.glyph,
        fg: match spec_color_from_hex(rs.fg@) {
            Some(c) => c,
            None => Color { r: 128, g: 0, b: 128 },
        },
        bg: match spec_color_from_hex(rs.bg@) {
            Some(c) => c,
            None => Color { r: 245, g: 245, b: 245 },
        },
    }
}

fn sprite_from(rs: &RawSprite) -> (s: CharSprite)
    ensures
        s == spec_sprite_from(*rs),
{
    let fg = match color_from_hex(rs.fg.as_str()) {
        Some(c) => c,
        None => Color { r: 128, g: 0, b: 128 },
    };
    let bg = match color_from_hex(rs.bg.as_str()) {
        Some(c) => c,
        None => Color { r: 245, g: 245, b: 245 },
    };
    CharSprite { glyph: rs.glyph, fg, bg }
}

/// The tile kind a raw type name denotes; unknown names degrade visibly.
pub open spec fn spec_tile_type_from(s: Seq<char>) -> TileType {
    if s == "upstairs"@ {
        TileType::UpStairs
    } else if s == "downstairs"@ {
        TileType::DownStairs
    } else if s == "wall"@ {
        TileType::Wall
    } else if s == "floor"@ {
        TileType::Floor
    } else if s == "water"@ {
        TileType::Water
    } else if s == "special"@ {
        TileType::Special
    } else {
        TileType::Unknown
    }
}

fn tile_type_from(s: &String) -> (t: TileType)
    ensures
        t == spec_tile_type_from(s@),
{
    if *s == "upstairs".to_owned() {
        TileType::UpStairs
    } else if *s == "downstairs".to_owned() {
        TileType::DownStairs
    } else if *s == "wall".to_owned() {
        TileType::Wall
    } else if *s == "floor".to_owned() {
        TileType::Floor
    } else if *s == "water".to_owned() {
        TileType::Water
    } else if *s == "special".to_owned() {
        TileType::Special
    } else {
        TileType::Unknown
    }
}

/// The tile a raw record describes: the placeholder tile with every present
/// field overridden.
pub open spec fn spec_tile_from(t: Tile) -> WorldTile {
    WorldTile {
        is_blocking: match t.is_blocking {
            Some(b) => b,
            None => false,
        },
        is_transparent: match t.is_transparent {
            Some(b) => b,
            None => false,
        },
        sprite: match t.sprite {
            Some(rs) => spec_sprite_from(rs),
            None => WorldTile::spec_empty().sprite,
        },
        tile_type: match t.tile_type {
            Some(s) => spec_tile_type_from(s@),
            None => TileType::Unknown,
        },
    }
}

fn tile_from(t: &Tile) -> (w: WorldTile)
    ensures
        w == spec_tile_from(*t),
{
    let mut builder = WorldTile::empty();
    if let Some(b) = t.is_blocking {
        builder.is_blocking = b;
    }
    if let Some(b) = t.is_transparent {
        builder.is_transparent = b;
    }
    if let Some(rs) = &t.sprite {
        builder.sprite = sprite_from(rs);
    }
    if let Some(tt) = &t.tile_type {
        builder.tile_type = tile_type_from(tt);
    }
    builder
}

/// The last tile record carrying the given name, if any; later records win
/// as they do when an index is built by insertion.
pub open spec fn spec_tile_named(all: Seq<Tile>, name: Seq<char>) -> Option<Tile>
    decreases all.len(),
{
    if all.len() == 0 {
        None
    } else if all.last().name@ == name {
        Some(all.last())
    } else {
        spec_tile_named(all.drop_last(), name)
    }
}

/// What a lookup by name returns: the named record's tile, or the clearly
/// marked placeholder when the name does not exist.
pub open spec fn spec_named_tile(edb: EntityDatabase, name: Seq<char>) -> WorldTile {
    match spec_tile_named(edb.tiles.all@, name) {
        Some(td) => spec_tile_from(td),
        None => WorldTile::spec_empty(),
    }
}

/// Returns a tile based on a name provided; returns the "empty" placeholder
/// tile if the name provided does not exist.
pub fn named_tile(edb: &EntityDatabase, name: &str) -> (t: WorldTile)
    ensures
        t == spec_named_tile(*edb, name@),
{
    let key: String = name.to_owned();
    let all = &edb.tiles.all;
    let mut i: usize = all.len();
    proof {
        assert(all@.take(all@.len() as int) =~= all@);
    }
    while i > 0
        invariant
            i <= all.len(),
            key@ == name@,
            all == edb.tiles.all,
            spec_tile_named(all@, name@) == spec_tile_named(all@.take(i as int), name@),
        decreases i,
    {
        let j = i - 1;
        proof {
            assert(all@.take(j + 1).last() == all@[j as int]);
            assert(all@.take(j + 1).drop_last() =~= all@.take(j as int));
        }
        if all[j].name == key {
            return tile_from(&all[j]);
        }
        i = j;
    }
    assert(all@.take(0) =~= Seq::<Tile>::empty());
    WorldTile::empty()
}

/// Law: catalog lookup is idempotent; two lookups of the same name in the
/// same catalog yield equal tile records, because the result is a function
/// of the catalog and the name alone.
pub proof fn lemma_catalog_lookup_idempotent(
    edb: EntityDatabase,
    name: Seq<char>,
    r1: WorldTile,
    r2: WorldTile,
)
    requires
        r1 == spec_named_tile(edb, name),
        r2 == spec_named_tile(edb, name),
    ensures
        r1 == r2,
{
}

/// The last living record carrying the given name, if any.
pub open spec fn spec_living_named(all: Seq<Living>, name: Seq<char>) -> Option<Living>
    decreases all.len(),
{
    if all.len() == 0 {
        None
    } else if all.last().name@ == name {
        Some(all.last())
    } else {
        spec_living_named(all.drop_last(), name)
    }
}

/// Looks a living entity up by name; None if the name does not exist.
pub fn named_living<'a>(edb: &'a EntityDatabase, name: &str) -> (r: Option<&'a Living>)
    ensures
        match r {
            Some(l) => spec_living_named(edb.living.all@, name@) == Some(*l),
            None => spec_living_named(edb.living.all@, name@) is None,
        },
{
    let key: String = name.to_owned();
    let all = &edb.living.all;
    let mut i: usize = all.len();
    proof {
        assert(all@.take(all@.len() as int) =~= all@);
    }
    while i > 0
        invariant
            i <= all.len(),
            key@ == name@,
            all == edb.living.all,
            spec_living_named(all@, name@) == spec_living_named(all@.take(i as int), name@),
        decreases i,
    {
        let j = i - 1;
        proof {
            assert(all@.take(j + 1).last() == all@[j as int]);
            assert(all@.take(j + 1).drop_last() =~= all@.take(j as int));
        }
        if all[j].name == key {
            return Some(&all[j]);
        }
        i = j;
    }
    assert(all@.take(0) =~= Seq::<Living>::empty());
    None
}

} // verus!
