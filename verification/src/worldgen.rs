//! Procedural generation of a dungeon level: carving caverns from a noise
//! field, extracting rooms by flood fill, placing stairs and the entrance
//! prefab, and growing decorative brush.
use vstd::prelude::*;

use bracket_random::prelude::RandomNumberGenerator;

use crate::actor::Position;
use crate::map::{lemma_pos_idx_in_range, TileType, WorldMap, WorldTile, MAP_HEIGHT, MAP_WIDTH};
use crate::data_read::{named_tile, spec_named_tile, EntityDatabase};
use crate::prefab::Prefab;
use crate::rng::rng_range;

verus! {

broadcast use vstd::seq_lib::lemma_seq_contains_after_push, crate::map::lemma_pos_idx_in_range;

/// Why a generation attempt could not produce a usable level. A failed
/// attempt aborts only the current level transition; the caller keeps its
/// previous, valid level.
#[derive(Clone, Copy, Debug, PartialEq, Eq, Structural)]
pub enum GenerationError {
    /// The entrance prefab is missing, malformed, or does not fit the map.
    MissingResource,
    /// No room survived culling, so stair placement has no valid target.
    NoViableRooms,
    /// A cached level has no stair tile matching the direction of travel.
    NoStairs,
}

/// An insertion-ordered collection of floor coordinates collected by one
/// flood-fill pass; never mutated after creation except wholesale removal.
#[derive(Clone, Debug)]
pub struct WorldRoom {
    pub tiles: Vec<Position>,
}

impl WorldRoom {
    pub fn new() -> (r: Self)
        ensures
            r.tiles.len() == 0,
    {
        Self { tiles: Vec::new() }
    }

    /// A uniformly random tile of the room; rooms are culled before use, so
    /// an empty room is excluded rather than a panic.
    pub fn get_random_point(&self, rng: &mut RandomNumberGenerator) -> (p: Position)
        requires
            self.tiles.len() > 0,
        ensures
            exists|k: int| 0 <= k < self.tiles.len() && self.tiles[k] == p,
    {
        let k = rng_range(rng, 0, self.tiles.len());
        self.tiles[k]
    }
}

/// The row-major flat index of a position in a grid of the given width.
pub open spec fn pos_index(p: Position, width: int) -> int {
    p.x + p.y * width
}

/// The room contains a tile with the given flat index.
pub open spec fn room_has_idx(room: WorldRoom, width: int, i: int) -> bool {
    exists|k: int| 0 <= k < room.tiles.len() && pos_index(#[trigger] room.tiles[k], width) == i
}

/// Some room of the list contains a tile with the given flat index.
pub open spec fn idx_in_some_room(rooms: Seq<WorldRoom>, width: int, i: int) -> bool {
    exists|r: int| 0 <= r < rooms.len() && room_has_idx(#[trigger] rooms[r], width, i)
}

/// Every tile of the room is inside a width-by-height grid.
pub open spec fn room_in_bounds(room: WorldRoom, width: int, height: int) -> bool {
    forall|k: int|
        0 <= k < room.tiles.len() ==> (#[trigger] room.tiles[k]).x < width && room.tiles[k].y
            < height
}

/// All rooms of the list lie inside a width-by-height grid.
pub open spec fn rooms_in_bounds(rooms: Seq<WorldRoom>, width: int, height: int) -> bool {
    forall|r: int| 0 <= r < rooms.len() ==> room_in_bounds(#[trigger] rooms[r], width, height)
}

/// Every tile of the room carries the floor sprite in the given terrain.
pub open spec fn room_all_floor(
    room: WorldRoom,
    tiles: Seq<WorldTile>,
    width: int,
    floor_sprite: crate::actor::CharSprite,
) -> bool {
    forall|k: int|
        0 <= k < room.tiles.len() ==> tiles[pos_index(#[trigger] room.tiles[k], width)].sprite
            == floor_sprite
}

/// The room is one of the listed rooms.
pub open spec fn room_among(room: WorldRoom, rooms: Seq<WorldRoom>) -> bool {
    exists|r0: int| 0 <= r0 < rooms.len() && room == #[trigger] rooms[r0]
}

/// No flat index belongs to two different rooms.
pub open spec fn rooms_disjoint(rooms: Seq<WorldRoom>, width: int) -> bool {
    forall|a: int, b: int, i: int|
        0 <= a < rooms.len() && 0 <= b < rooms.len() && a != b ==> !(#[trigger] room_has_idx(
            rooms[a],
            width,
            i,
        ) && #[trigger] room_has_idx(rooms[b], width, i))
}

/// A valid neighbor is a point inside the map bounds and not the original
/// branching point.
pub open spec fn is_valid_neighbor(x: int, y: int, sx: int, sy: int) -> bool {
    x < MAP_WIDTH && y < MAP_HEIGHT && y >= 0 && x >= 0 && !(x == sx && y == sy)
}

/// The cell one step from `p` in the given direction, when that step
/// stays on the map and moves at all; a one-cell piece of the neighbor
/// list.
pub open spec fn spec_neighbor_at(p: Position, dx: int, dy: int) -> Seq<Position> {
    if 0 <= p.x + dx < MAP_WIDTH && 0 <= p.y + dy < MAP_HEIGHT && !(dx == 0 && dy == 0) {
        seq![Position { x: (p.x + dx) as usize, y: (p.y + dy) as usize }]
    } else {
        Seq::empty()
    }
}

/// The neighbor list of a point: its up-to-8 surrounding in-bounds cells,
/// in column-major order.
pub open spec fn spec_neighbors(p: Position) -> Seq<Position> {
    spec_neighbor_at(p, -1, -1) + spec_neighbor_at(p, -1, 0) + spec_neighbor_at(p, -1, 1)
        + spec_neighbor_at(p, 0, -1) + spec_neighbor_at(p, 0, 1) + spec_neighbor_at(p, 1, -1)
        + spec_neighbor_at(p, 1, 0) + spec_neighbor_at(p, 1, 1)
}

/// Gets the 8 neighboring tiles of a point, exactly the in-bounds ones,
/// in column-major order.
#[verifier::rlimit(50)]
pub fn get_neighbors(point: Position) -> (r: Vec<Position>)
    requires
        point.x < MAP_WIDTH,
        point.y < MAP_HEIGHT,
    ensures
        r@ == spec_neighbors(point),
        r.len() <= 8,
        forall|k: int|
            0 <= k < r.len() ==> {
                let q = #[trigger] r[k];
                &&& is_valid_neighbor(q.x as int, q.y as int, point.x as int, point.y as int)
                &&& point.x - 1 <= q.x <= point.x + 1
                &&& point.y - 1 <= q.y <= point.y + 1
            },
        forall|qx: int, qy: int|
            point.x - 1 <= qx <= point.x + 1 && point.y - 1 <= qy <= point.y + 1
                && #[trigger] is_valid_neighbor(qx, qy, point.x as int, point.y as int)
                ==> r@.contains(Position { x: qx as usize, y: qy as usize }),
{
    let mut neighbors: Vec<Position> = Vec::new();
    let left = point.x >= 1;
    let right = point.x + 1 < MAP_WIDTH;
    let up = point.y >= 1;
    let down = point.y + 1 < MAP_HEIGHT;
    if left && up {
        neighbors.push(Position { x: point.x - 1, y: point.y - 1 });
    }
    if left {
        neighbors.push(Position { x: point.x - 1, y: point.y });
    }
    if left && down {
        neighbors.push(Position { x: point.x - 1, y: point.y + 1 });
    }
    if up {
        neighbors.push(Position { x: point.x, y: point.y - 1 });
    }
    if down {
        neighbors.push(Position { x: point.x, y: point.y + 1 });
    }
    if right && up {
        neighbors.push(Position { x: point.x + 1, y: point.y - 1 });
    }
    if right {
        neighbors.push(Position { x: point.x + 1, y: point.y });
    }
    if right && down {
        neighbors.push(Position { x: point.x + 1, y: point.y + 1 });
    }
    proof {
        assert(neighbors@ =~= spec_neighbors(point));
    }
    neighbors
}

/// Gets the up-to-4 orthogonal neighbors of a point inside a width-by-height
/// grid: left, right, up, down. Room extraction deliberately uses orthogonal
/// adjacency only, so rooms match orthogonal movement connectivity.
fn cardinal_neighbors(point: Position, width: usize, height: usize) -> (r: Vec<Position>)
    requires
        point.x < width,
        point.y < height,
    ensures
        forall|k: int|
            0 <= k < r.len() ==> {
                let q = #[trigger] r[k];
                &&& q.x < width
                &&& q.y < height
                &&& cardinal_adjacent(point, q)
            },
        point.x >= 1 ==> r@.contains(Position { x: (point.x - 1) as usize, y: point.y }),
        point.x + 1 < width ==> r@.contains(Position { x: (point.x + 1) as usize, y: point.y }),
        point.y >= 1 ==> r@.contains(Position { x: point.x, y: (point.y - 1) as usize }),
        point.y + 1 < height ==> r@.contains(Position { x: point.x, y: (point.y + 1) as usize }),
{
    let mut neighbors: Vec<Position> = Vec::new();
    if point.x >= 1 {
        neighbors.push(Position { x: point.x - 1, y: point.y });
    }
    if point.x + 1 < width {
        neighbors.push(Position { x: point.x + 1, y: point.y });
    }
    if point.y >= 1 {
        neighbors.push(Position { x: point.x, y: point.y - 1 });
    }
    if point.y + 1 < height {
        neighbors.push(Position { x: point.x, y: point.y + 1 });
    }
    neighbors
}

/// Two points are orthogonally adjacent: they differ by one in exactly one
/// coordinate.
pub open spec fn cardinal_adjacent(a: Position, b: Position) -> bool {
    ||| (a.x == b.x && (a.y == b.y + 1 || b.y == a.y + 1))
    ||| (a.y == b.y && (a.x == b.x + 1 || b.x == a.x + 1))
}

/// Every tile of the room is reachable from every other through
/// floor-to-floor moves: rooms are connected bodies of land.
pub open spec fn room_connected(
    room: WorldRoom,
    tiles: Seq<WorldTile>,
    width: int,
    height: int,
    floor_sprite: crate::actor::CharSprite,
) -> bool {
    forall|j: int, k: int|
        0 <= j < room.tiles.len() && 0 <= k < room.tiles.len() ==> reachable(
            tiles,
            width,
            height,
            floor_sprite,
            #[trigger] room.tiles@[j],
            #[trigger] room.tiles@[k],
        )
}

/// Every in-bounds floor cell one orthogonal step from a room tile is
/// itself one of the room's tiles: the room is closed under floor
/// adjacency, so it captures its whole body of land.
pub open spec fn room_floor_closed(
    room: WorldRoom,
    tiles: Seq<WorldTile>,
    width: int,
    height: int,
    floor_sprite: crate::actor::CharSprite,
) -> bool {
    forall|k: int, q: Position|
        0 <= k < room.tiles.len() && #[trigger] floor_step(
            tiles,
            width,
            height,
            room.tiles@[k],
            q,
            floor_sprite,
        ) ==> room.tiles@.contains(q)
}

/// One floor-to-floor move: the two cells are in bounds, orthogonally
/// adjacent, and both carry the floor sprite.
pub open spec fn floor_step(
    tiles: Seq<WorldTile>,
    width: int,
    height: int,
    a: Position,
    b: Position,
    floor_sprite: crate::actor::CharSprite,
) -> bool {
    &&& cardinal_adjacent(a, b)
    &&& a.x < width && a.y < height
    &&& b.x < width && b.y < height
    &&& tiles[pos_index(a, width)].sprite == floor_sprite
    &&& tiles[pos_index(b, width)].sprite == floor_sprite
}

/// `b` can be reached from `a` in at most `n` floor-to-floor moves.
pub open spec fn reaches_in(
    tiles: Seq<WorldTile>,
    width: int,
    height: int,
    floor_sprite: crate::actor::CharSprite,
    a: Position,
    b: Position,
    n: nat,
) -> bool
    decreases n,
{
    a == b || (n > 0 && (exists|c: Position|
        #[trigger] floor_step(tiles, width, height, c, b, floor_sprite) && reaches_in(
            tiles,
            width,
            height,
            floor_sprite,
            a,
            c,
            (n - 1) as nat,
        )))
}

/// `b` can be reached from `a` through floor-to-floor moves.
pub open spec fn reachable(
    tiles: Seq<WorldTile>,
    width: int,
    height: int,
    floor_sprite: crate::actor::CharSprite,
    a: Position,
    b: Position,
) -> bool {
    exists|n: nat| reaches_in(tiles, width, height, floor_sprite, a, b, n)
}

/// A path can be padded to any longer bound.
proof fn lemma_reaches_mono(
    tiles: Seq<WorldTile>,
    width: int,
    height: int,
    fs: crate::actor::CharSprite,
    a: Position,
    b: Position,
    n: nat,
    m: nat,
)
    requires
        reaches_in(tiles, width, height, fs, a, b, n),
        n <= m,
    ensures
        reaches_in(tiles, width, height, fs, a, b, m),
    decreases n,
{
    if a != b {
        let c = choose|c: Position|
            #[trigger] floor_step(tiles, width, height, c, b, fs) && reaches_in(
                tiles,
                width,
                height,
                fs,
                a,
                c,
                (n - 1) as nat,
            );
        lemma_reaches_mono(tiles, width, height, fs, a, c, (n - 1) as nat, (m - 1) as nat);
    }
}

/// A step prepended to a path gives a path one move longer.
proof fn lemma_reaches_prepend(
    tiles: Seq<WorldTile>,
    width: int,
    height: int,
    fs: crate::actor::CharSprite,
    a: Position,
    c: Position,
    b: Position,
    m: nat,
)
    requires
        floor_step(tiles, width, height, a, c, fs),
        reaches_in(tiles, width, height, fs, c, b, m),
    ensures
        reaches_in(tiles, width, height, fs, a, b, (m + 1) as nat),
    decreases m,
{
    if c == b {
        assert(floor_step(tiles, width, height, a, b, fs));
        lemma_reaches_mono(tiles, width, height, fs, a, a, 0, m);
        assert(reaches_in(tiles, width, height, fs, a, a, m));
    } else {
        let d = choose|d: Position|
            #[trigger] floor_step(tiles, width, height, d, b, fs) && reaches_in(
                tiles,
                width,
                height,
                fs,
                c,
                d,
                (m - 1) as nat,
            );
        lemma_reaches_prepend(tiles, width, height, fs, a, c, d, (m - 1) as nat);
        assert(reaches_in(tiles, width, height, fs, a, d, m));
    }
}

/// Law: floor-to-floor reachability is symmetric, because each move can be
/// walked backwards.
pub proof fn lemma_reachable_sym(
    tiles: Seq<WorldTile>,
    width: int,
    height: int,
    fs: crate::actor::CharSprite,
    a: Position,
    b: Position,
)
    requires
        reachable(tiles, width, height, fs, a, b),
    ensures
        reachable(tiles, width, height, fs, b, a),
{
    let n = choose|n: nat| reaches_in(tiles, width, height, fs, a, b, n);
    lemma_reaches_in_sym(tiles, width, height, fs, a, b, n);
    assert(reaches_in(tiles, width, height, fs, b, a, n));
}

proof fn lemma_reaches_in_sym(
    tiles: Seq<WorldTile>,
    width: int,
    height: int,
    fs: crate::actor::CharSprite,
    a: Position,
    b: Position,
    n: nat,
)
    requires
        reaches_in(tiles, width, height, fs, a, b, n),
    ensures
        reaches_in(tiles, width, height, fs, b, a, n),
    decreases n,
{
    if a != b {
        let c = choose|c: Position|
            #[trigger] floor_step(tiles, width, height, c, b, fs) && reaches_in(
                tiles,
                width,
                height,
                fs,
                a,
                c,
                (n - 1) as nat,
            );
        lemma_reaches_in_sym(tiles, width, height, fs, a, c, (n - 1) as nat);
        assert(floor_step(tiles, width, height, b, c, fs));
        lemma_reaches_prepend(tiles, width, height, fs, b, c, a, (n - 1) as nat);
        lemma_reaches_mono(tiles, width, height, fs, b, a, n, n);
    }
}

/// Law: floor-to-floor reachability is transitive; two paths concatenate.
pub proof fn lemma_reachable_trans(
    tiles: Seq<WorldTile>,
    width: int,
    height: int,
    fs: crate::actor::CharSprite,
    a: Position,
    b: Position,
    c: Position,
)
    requires
        reachable(tiles, width, height, fs, a, b),
        reachable(tiles, width, height, fs, b, c),
    ensures
        reachable(tiles, width, height, fs, a, c),
{
    let n = choose|n: nat| reaches_in(tiles, width, height, fs, a, b, n);
    let m = choose|m: nat| reaches_in(tiles, width, height, fs, b, c, m);
    lemma_reaches_in_trans(tiles, width, height, fs, a, b, c, n, m);
    assert(reaches_in(tiles, width, height, fs, a, c, (n + m) as nat));
}

proof fn lemma_reaches_in_trans(
    tiles: Seq<WorldTile>,
    width: int,
    height: int,
    fs: crate::actor::CharSprite,
    a: Position,
    b: Position,
    c: Position,
    n: nat,
    m: nat,
)
    requires
        reaches_in(tiles, width, height, fs, a, b, n),
        reaches_in(tiles, width, height, fs, b, c, m),
    ensures
        reaches_in(tiles, width, height, fs, a, c, (n + m) as nat),
    decreases m,
{
    if b == c {
        lemma_reaches_mono(tiles, width, height, fs, a, b, n, (n + m) as nat);
    } else {
        let d = choose|d: Position|
            #[trigger] floor_step(tiles, width, height, d, c, fs) && reaches_in(
                tiles,
                width,
                height,
                fs,
                b,
                d,
                (m - 1) as nat,
            );
        lemma_reaches_in_trans(tiles, width, height, fs, a, b, d, n, (m - 1) as nat);
        assert(reaches_in(tiles, width, height, fs, a, d, (n + m - 1) as nat));
    }
}

/// A room closed under floor adjacency swallows every floor path that
/// starts on one of its tiles.
proof fn lemma_closed_under_paths(
    tiles: Seq<WorldTile>,
    width: int,
    height: int,
    fs: crate::actor::CharSprite,
    room: WorldRoom,
    a: Position,
    b: Position,
    n: nat,
)
    requires
        room_floor_closed(room, tiles, width, height, fs),
        room.tiles@.contains(a),
        reaches_in(tiles, width, height, fs, a, b, n),
    ensures
        room.tiles@.contains(b),
    decreases n,
{
    if a != b {
        let c = choose|c: Position|
            #[trigger] floor_step(tiles, width, height, c, b, fs) && reaches_in(
                tiles,
                width,
                height,
                fs,
                a,
                c,
                (n - 1) as nat,
            );
        lemma_closed_under_paths(tiles, width, height, fs, room, a, c, (n - 1) as nat);
        let k = choose|k: int| 0 <= k < room.tiles@.len() && room.tiles@[k] == c;
        assert(floor_step(tiles, width, height, room.tiles@[k], b, fs));
    }
}

/// Law: a connected, adjacency-closed room is exactly the body of land
/// around any of its tiles. A cell belongs to the room if and only if it
/// can be reached from that tile through floor-to-floor moves.
pub proof fn lemma_room_is_component(
    tiles: Seq<WorldTile>,
    width: int,
    height: int,
    fs: crate::actor::CharSprite,
    room: WorldRoom,
    a: Position,
    b: Position,
)
    requires
        room_floor_closed(room, tiles, width, height, fs),
        room_connected(room, tiles, width, height, fs),
        room.tiles@.contains(a),
    ensures
        room.tiles@.contains(b) <==> reachable(tiles, width, height, fs, a, b),
{
    if room.tiles@.contains(b) {
        let j = choose|j: int| 0 <= j < room.tiles@.len() && room.tiles@[j] == a;
        let k = choose|k: int| 0 <= k < room.tiles@.len() && room.tiles@[k] == b;
        assert(reachable(tiles, width, height, fs, room.tiles@[j], room.tiles@[k]));
    }
    if reachable(tiles, width, height, fs, a, b) {
        let n = choose|n: nat| reaches_in(tiles, width, height, fs, a, b, n);
        lemma_closed_under_paths(tiles, width, height, fs, room, a, b, n);
    }
}

/// How many cells of a visited bitmap are still unvisited.
pub open spec fn count_false(s: Seq<bool>) -> nat
    decreases s.len(),
{
    if s.len() == 0 {
        0
    } else {
        (if s[0] {
            0nat
        } else {
            1nat
        }) + count_false(s.drop_first())
    }
}

/// Marking an unvisited cell visited strictly shrinks the unvisited count;
/// this is what makes flood fill terminate.
proof fn lemma_count_false_update(s: Seq<bool>, i: int)
    requires
        0 <= i < s.len(),
        !s[i],
    ensures
        count_false(s.update(i, true)) < count_false(s),
    decreases s.len(),
{
    if i == 0 {
        assert(s.update(0, true).drop_first() =~= s.drop_first());
    } else {
        assert(s.update(i, true).drop_first() =~= s.drop_first().update(i - 1, true));
        lemma_count_false_update(s.drop_first(), i - 1);
    }
}

/// Checks neighbors and finds all points within a single continuous room:
/// every orthogonally connected tile carrying the floor sprite, explored
/// from `starting` with an explicit stack. Non-floor neighbors are marked
/// visited but not collected, so later scans skip them without
/// reprocessing.
pub fn flood_fill(starting: Position, map: &WorldMap, floor: &WorldTile, visited: &mut Vec<
    bool,
>) -> (room: WorldRoom)
    requires
        map.wf(),
        old(visited).len() == map.tiles.len(),
        map.in_bounds(starting),
        map.tiles[map.pos_idx(starting)].sprite == floor.sprite,
        !old(visited)[map.pos_idx(starting)],
    ensures
        final (visited).len() == old(visited).len(),
        forall|i: int| 0 <= i < old(visited).len() && old(visited)[i] ==> final (visited)[i],
        forall|k: int|
            0 <= k < room.tiles.len() ==> {
                let p = #[trigger] room.tiles[k];
                &&& map.in_bounds(p)
                &&& map.tiles[map.pos_idx(p)].sprite == floor.sprite
                &&& final (visited)[map.pos_idx(p)]
                &&& !old(visited)[map.pos_idx(p)]
            },
        forall|i: int| #![trigger final (visited)@[i]]
            0 <= i < old(visited).len() && final (visited)[i] && !old(visited)[i]
                && map.tiles[i].sprite == floor.sprite ==> room_has_idx(
                room,
                map.width as int,
                i,
            ),
        final (visited)[map.pos_idx(starting)],
        room_has_idx(room, map.width as int, map.pos_idx(starting)),
        forall|k: int|
            0 <= k < room.tiles.len() ==> reachable(
                map.tiles@,
                map.width as int,
                map.height as int,
                floor.sprite,
                starting,
                #[trigger] room.tiles@[k],
            ),
        room_connected(room, map.tiles@, map.width as int, map.height as int, floor.sprite),
        forall|k: int, q: Position|
            0 <= k < room.tiles.len() && #[trigger] floor_step(
                map.tiles@,
                map.width as int,
                map.height as int,
                room.tiles@[k],
                q,
                floor.sprite,
            ) ==> final (visited)@[pos_index(q, map.width as int)],
        room.tiles@.no_duplicates(),
        forall|k: int, q: Position|
            #![trigger room.tiles@[k], pos_index(q, map.width as int)]
            0 <= k < room.tiles.len() && cardinal_adjacent(room.tiles@[k], q) && q.x < map.width
                && q.y < map.height && map.tiles@[pos_index(q, map.width as int)].sprite
                != floor.sprite ==> final (visited)@[pos_index(q, map.width as int)],
{
    let mut room = WorldRoom::new();
    let mut unvisited: Vec<Position> = Vec::new();
    unvisited.push(starting);
    proof {
        assert(reaches_in(
            map.tiles@,
            map.width as int,
            map.height as int,
            floor.sprite,
            starting,
            starting,
            0,
        ));
        assert(reachable(
            map.tiles@,
            map.width as int,
            map.height as int,
            floor.sprite,
            starting,
            starting,
        ));
    }
    while unvisited.len() > 0
        invariant
            map.wf(),
            visited.len() == old(visited).len(),
            old(visited).len() == map.tiles.len(),
            map.in_bounds(starting),
            map.tiles[map.pos_idx(starting)].sprite == floor.sprite,
            forall|i: int| 0 <= i < visited.len() && old(visited)[i] ==> visited[i],
            forall|k: int|
                0 <= k < unvisited.len() ==> {
                    let q = #[trigger] unvisited[k];
                    &&& map.in_bounds(q)
                    &&& map.tiles[map.pos_idx(q)].sprite == floor.sprite
                    &&& reachable(
                        map.tiles@,
                        map.width as int,
                        map.height as int,
                        floor.sprite,
                        starting,
                        q,
                    )
                },
            forall|k: int|
                0 <= k < room.tiles.len() ==> {
                    let p = #[trigger] room.tiles[k];
                    &&& map.in_bounds(p)
                    &&& map.tiles[map.pos_idx(p)].sprite == floor.sprite
                    &&& visited[map.pos_idx(p)]
                    &&& !old(visited)[map.pos_idx(p)]
                    &&& reachable(
                        map.tiles@,
                        map.width as int,
                        map.height as int,
                        floor.sprite,
                        starting,
                        p,
                    )
                },
            forall|i: int|
                0 <= i < visited.len() && visited[i] && !old(visited)[i] && map.tiles[i].sprite
                    == floor.sprite ==> room_has_idx(room, map.width as int, i),
            visited[map.pos_idx(starting)] || unvisited@.contains(starting),
            room.tiles@.no_duplicates(),
            forall|k: int, q: Position|
                0 <= k < room.tiles.len() && #[trigger] floor_step(
                    map.tiles@,
                    map.width as int,
                    map.height as int,
                    room.tiles@[k],
                    q,
                    floor.sprite,
                ) ==> visited@[pos_index(q, map.width as int)] || unvisited@.contains(q),
            forall|k: int, q: Position|
                #![trigger room.tiles@[k], pos_index(q, map.width as int)]
                0 <= k < room.tiles.len() && cardinal_adjacent(room.tiles@[k], q) && q.x
                    < map.width && q.y < map.height && map.tiles@[pos_index(
                    q,
                    map.width as int,
                )].sprite != floor.sprite ==> visited@[pos_index(q, map.width as int)],
        decreases count_false(visited@), unvisited.len(),
    {
        let ghost head_stack = unvisited@;
        let pt = unvisited.pop().unwrap();
        proof {
            assert(pt == head_stack.last());
            assert(map.in_bounds(pt) && map.tiles[map.pos_idx(pt)].sprite == floor.sprite);
            lemma_pos_idx_in_range(*map, pt);
        }
        let idx = map.xy_to_idx(pt.x, pt.y);
        if !visited[idx] {
            let ghost pre_visited = visited@;
            let ghost pre_room = room;
            visited.set(idx, true);
            proof {
                lemma_count_false_update(pre_visited, idx as int);
                assert(visited[map.pos_idx(starting)] || unvisited@.contains(starting)) by {
                    if head_stack.contains(starting) {
                        let k = choose|k: int|
                            0 <= k < head_stack.len() && head_stack[k] == starting;
                        if k < head_stack.len() - 1 {
                            assert(unvisited@[k] == starting);
                        } else {
                            assert(pt == starting);
                        }
                    }
                }
            }
            room.tiles.push(pt);
            proof {
                assert forall|k1: int, k2: int| 0 <= k1 < k2 < room.tiles.len() implies
                    room.tiles@[k1] != room.tiles@[k2] by {
                    if k2 == room.tiles.len() - 1 {
                        assert(room.tiles@[k1] == pre_room.tiles@[k1]);
                        if room.tiles@[k1] == pt {
                            assert(pre_visited[map.pos_idx(pt)]);
                        }
                    } else {
                        assert(room.tiles@[k1] == pre_room.tiles@[k1]);
                        assert(room.tiles@[k2] == pre_room.tiles@[k2]);
                    }
                }
                assert(room.tiles@.no_duplicates());
                assert forall|k: int, q: Position|
                    #![trigger pre_room.tiles@[k], pos_index(q, map.width as int)]
                    0 <= k < pre_room.tiles.len() && cardinal_adjacent(pre_room.tiles@[k], q)
                        && q.x < map.width && q.y < map.height && map.tiles@[pos_index(
                        q,
                        map.width as int,
                    )].sprite != floor.sprite implies visited@[pos_index(
                    q,
                    map.width as int,
                )] by {
                    lemma_pos_index_range(q, map.width as int, map.height as int);
                }
                assert forall|k: int, q: Position|
                    0 <= k < pre_room.tiles.len() && #[trigger] floor_step(
                        map.tiles@,
                        map.width as int,
                        map.height as int,
                        pre_room.tiles@[k],
                        q,
                        floor.sprite,
                    ) implies visited@[pos_index(q, map.width as int)] || unvisited@.contains(
                    q,
                ) by {
                    lemma_pos_index_range(q, map.width as int, map.height as int);
                    if !pre_visited[pos_index(q, map.width as int)] {
                        // not yet settled at the head of this pass: it sat
                        // in the stack, behind or at the popped tile
                        assert(head_stack.contains(q));
                        let kk = choose|kk: int|
                            0 <= kk < head_stack.len() && head_stack[kk] == q;
                        if kk < head_stack.len() - 1 {
                            assert(unvisited@[kk] == q);
                        } else {
                            assert(q == pt);
                        }
                    }
                }
                assert forall|i: int|
                    0 <= i < visited.len() && visited[i] && !old(visited)[i] && map.tiles[i].sprite
                        == floor.sprite implies room_has_idx(room, map.width as int, i) by {
                    if i == idx as int {
                        assert(room.tiles[room.tiles.len() - 1] == pt);
                        assert(pos_index(room.tiles[room.tiles.len() - 1], map.width as int) == i);
                    } else {
                        assert(pre_visited[i] && !old(visited)[i] && map.tiles[i].sprite
                            == floor.sprite);
                        assert(room_has_idx(pre_room, map.width as int, i));
                        let k = choose|k: int|
                            0 <= k < pre_room.tiles.len() && pos_index(
                                pre_room.tiles[k],
                                map.width as int,
                            ) == i;
                        assert(room.tiles[k] == pre_room.tiles[k]);
                    }
                }
            }
            let ghost count_mid = count_false(visited@);
            let neighbors = cardinal_neighbors(pt, map.width, map.height);
            let mut j: usize = 0;
            while j < neighbors.len()
                invariant
                    map.wf(),
                    visited.len() == old(visited).len(),
                    old(visited).len() == map.tiles.len(),
                    j <= neighbors.len(),
                    forall|k: int|
                        0 <= k < neighbors.len() ==> map.in_bounds(#[trigger] neighbors[k])
                            && cardinal_adjacent(pt, neighbors[k]),
                    map.in_bounds(pt),
                    map.tiles[map.pos_idx(pt)].sprite == floor.sprite,
                    reachable(
                        map.tiles@,
                        map.width as int,
                        map.height as int,
                        floor.sprite,
                        starting,
                        pt,
                    ),
                    forall|i: int| 0 <= i < visited.len() && old(visited)[i] ==> visited[i],
                    forall|k: int|
                        0 <= k < unvisited.len() ==> {
                            let q = #[trigger] unvisited[k];
                            &&& map.in_bounds(q)
                            &&& map.tiles[map.pos_idx(q)].sprite == floor.sprite
                            &&& reachable(
                        map.tiles@,
                        map.width as int,
                        map.height as int,
                        floor.sprite,
                        starting,
                        q,
                    )
                        },
                    forall|k: int|
                        0 <= k < room.tiles.len() ==> {
                            let p = #[trigger] room.tiles[k];
                            &&& map.in_bounds(p)
                            &&& map.tiles[map.pos_idx(p)].sprite == floor.sprite
                            &&& visited[map.pos_idx(p)]
                            &&& !old(visited)[map.pos_idx(p)]
                            &&& reachable(
                        map.tiles@,
                        map.width as int,
                        map.height as int,
                        floor.sprite,
                        starting,
                        p,
                    )
                        },
                    forall|i: int|
                        0 <= i < visited.len() && visited[i] && !old(visited)[i]
                            && map.tiles[i].sprite == floor.sprite ==> room_has_idx(
                            room,
                            map.width as int,
                            i,
                        ),
                    count_false(visited@) <= count_mid,
                    count_mid < count_false(pre_visited),
                    map.in_bounds(starting),
                    visited[map.pos_idx(starting)] || unvisited@.contains(starting),
                    room.tiles@ == pre_room.tiles@.push(pt),
                    forall|k: int, q: Position|
                        0 <= k < pre_room.tiles.len() && #[trigger] floor_step(
                            map.tiles@,
                            map.width as int,
                            map.height as int,
                            pre_room.tiles@[k],
                            q,
                            floor.sprite,
                        ) ==> visited@[pos_index(q, map.width as int)] || unvisited@.contains(q),
                    forall|k: int, q: Position|
                        #![trigger pre_room.tiles@[k], pos_index(q, map.width as int)]
                        0 <= k < pre_room.tiles.len() && cardinal_adjacent(pre_room.tiles@[k], q)
                            && q.x < map.width && q.y < map.height && map.tiles@[pos_index(
                            q,
                            map.width as int,
                        )].sprite != floor.sprite ==> visited@[pos_index(q, map.width as int)],
                    forall|jj: int|
                        0 <= jj < j ==> visited@[pos_index(
                            #[trigger] neighbors@[jj],
                            map.width as int,
                        )] || unvisited@.contains(neighbors@[jj]),
                decreases neighbors.len() - j,
            {
                let n = neighbors[j];
                proof {
                    lemma_pos_idx_in_range(*map, n);
                }
                let nidx = map.xy_to_idx(n.x, n.y);
                if !visited[nidx] {
                    if map.tiles[nidx].sprite == floor.sprite {
                        proof {
                            let w = map.width as int;
                            let h = map.height as int;
                            let n0 = choose|n0: nat|
                                reaches_in(map.tiles@, w, h, floor.sprite, starting, pt, n0);
                            assert(floor_step(map.tiles@, w, h, pt, n, floor.sprite));
                            assert(reaches_in(
                                map.tiles@,
                                w,
                                h,
                                floor.sprite,
                                starting,
                                n,
                                (n0 + 1) as nat,
                            ));
                            assert(reachable(map.tiles@, w, h, floor.sprite, starting, n));
                        }
                        unvisited.push(n);
                    } else {
                        let ghost pre2 = visited@;
                        visited.set(nidx, true);
                        proof {
                            lemma_count_false_update(pre2, nidx as int);
                        }
                    }
                }
                proof {
                    assert forall|k: int, q: Position|
                        0 <= k < pre_room.tiles.len() && #[trigger] floor_step(
                            map.tiles@,
                            map.width as int,
                            map.height as int,
                            pre_room.tiles@[k],
                            q,
                            floor.sprite,
                        ) implies visited@[pos_index(q, map.width as int)]
                        || unvisited@.contains(q) by {
                        lemma_pos_index_range(q, map.width as int, map.height as int);
                    }
                    assert forall|k: int, q: Position|
                        #![trigger pre_room.tiles@[k], pos_index(q, map.width as int)]
                        0 <= k < pre_room.tiles.len() && cardinal_adjacent(pre_room.tiles@[k], q)
                            && q.x < map.width && q.y < map.height && map.tiles@[pos_index(
                            q,
                            map.width as int,
                        )].sprite != floor.sprite implies visited@[pos_index(
                        q,
                        map.width as int,
                    )] by {
                        lemma_pos_index_range(q, map.width as int, map.height as int);
                    }
                    assert forall|jj: int| 0 <= jj < j + 1 implies visited@[pos_index(
                        #[trigger] neighbors@[jj],
                        map.width as int,
                    )] || unvisited@.contains(neighbors@[jj]) by {
                        lemma_pos_index_range(neighbors@[jj], map.width as int, map.height as int);
                        if jj == j {
                            assert(neighbors@[jj] == n);
                            assert(pos_index(n, map.width as int) == nidx as int);
                        }
                    }
                }
                j = j + 1;
            }
            proof {
                // every floor cell one step from the freshly collected tile
                // was just settled or queued, and the older members keep
                // their settled neighborhoods
                assert forall|k: int, q: Position|
                    0 <= k < room.tiles.len() && #[trigger] floor_step(
                        map.tiles@,
                        map.width as int,
                        map.height as int,
                        room.tiles@[k],
                        q,
                        floor.sprite,
                    ) implies visited@[pos_index(q, map.width as int)] || unvisited@.contains(
                    q,
                ) by {
                    lemma_pos_index_range(q, map.width as int, map.height as int);
                    if k == room.tiles.len() - 1 {
                        assert(room.tiles@[k] == pt);
                        assert(cardinal_adjacent(pt, q));
                        if q.y == pt.y + 1 {
                            assert(neighbors@.contains(
                                Position { x: pt.x, y: (pt.y + 1) as usize },
                            ));
                            assert(neighbors@.contains(q));
                        } else if pt.y == q.y + 1 {
                            assert(neighbors@.contains(
                                Position { x: pt.x, y: (pt.y - 1) as usize },
                            ));
                            assert(neighbors@.contains(q));
                        } else if q.x == pt.x + 1 {
                            assert(neighbors@.contains(
                                Position { x: (pt.x + 1) as usize, y: pt.y },
                            ));
                            assert(neighbors@.contains(q));
                        } else {
                            assert(pt.x == q.x + 1);
                            assert(neighbors@.contains(
                                Position { x: (pt.x - 1) as usize, y: pt.y },
                            ));
                            assert(neighbors@.contains(q));
                        }
                        let jj = choose|jj: int|
                            0 <= jj < neighbors@.len() && neighbors@[jj] == q;
                        assert(map.tiles@[pos_index(neighbors@[jj], map.width as int)].sprite
                            == floor.sprite);
                    } else {
                        assert(room.tiles@[k] == pre_room.tiles@[k]);
                        assert(floor_step(
                            map.tiles@,
                            map.width as int,
                            map.height as int,
                            pre_room.tiles@[k],
                            q,
                            floor.sprite,
                        ));
                    }
                }
                assert forall|k: int, q: Position|
                    #![trigger room.tiles@[k], pos_index(q, map.width as int)]
                    0 <= k < room.tiles.len() && cardinal_adjacent(room.tiles@[k], q) && q.x
                        < map.width && q.y < map.height && map.tiles@[pos_index(
                        q,
                        map.width as int,
                    )].sprite != floor.sprite implies visited@[pos_index(
                    q,
                    map.width as int,
                )] by {
                    lemma_pos_index_range(q, map.width as int, map.height as int);
                    if k == room.tiles.len() - 1 {
                        assert(room.tiles@[k] == pt);
                        if q.y == pt.y + 1 {
                            assert(neighbors@.contains(
                                Position { x: pt.x, y: (pt.y + 1) as usize },
                            ));
                            assert(neighbors@.contains(q));
                        } else if pt.y == q.y + 1 {
                            assert(neighbors@.contains(
                                Position { x: pt.x, y: (pt.y - 1) as usize },
                            ));
                            assert(neighbors@.contains(q));
                        } else if q.x == pt.x + 1 {
                            assert(neighbors@.contains(
                                Position { x: (pt.x + 1) as usize, y: pt.y },
                            ));
                            assert(neighbors@.contains(q));
                        } else {
                            assert(pt.x == q.x + 1);
                            assert(neighbors@.contains(
                                Position { x: (pt.x - 1) as usize, y: pt.y },
                            ));
                            assert(neighbors@.contains(q));
                        }
                        let jj = choose|jj: int|
                            0 <= jj < neighbors@.len() && neighbors@[jj] == q;
                        if unvisited@.contains(neighbors@[jj]) {
                            let kk = choose|kk: int|
                                0 <= kk < unvisited@.len() && unvisited@[kk] == neighbors@[jj];
                            assert(map.tiles[map.pos_idx(unvisited@[kk])].sprite == floor.sprite);
                        }
                    } else {
                        assert(room.tiles@[k] == pre_room.tiles@[k]);
                    }
                }
            }
        } else {
            proof {
                assert(visited[map.pos_idx(starting)] || unvisited@.contains(starting)) by {
                    if head_stack.contains(starting) {
                        let k = choose|k: int|
                            0 <= k < head_stack.len() && head_stack[k] == starting;
                        if k < head_stack.len() - 1 {
                            assert(unvisited@[k] == starting);
                        } else {
                            assert(pt == starting);
                        }
                    }
                }
                assert forall|k: int, q: Position|
                    0 <= k < room.tiles.len() && #[trigger] floor_step(
                        map.tiles@,
                        map.width as int,
                        map.height as int,
                        room.tiles@[k],
                        q,
                        floor.sprite,
                    ) implies visited@[pos_index(q, map.width as int)] || unvisited@.contains(
                    q,
                ) by {
                    lemma_pos_index_range(q, map.width as int, map.height as int);
                    if !visited@[pos_index(q, map.width as int)] {
                        assert(head_stack.contains(q));
                        let kk = choose|kk: int|
                            0 <= kk < head_stack.len() && head_stack[kk] == q;
                        if kk < head_stack.len() - 1 {
                            assert(unvisited@[kk] == q);
                        } else {
                            assert(q == pt);
                            assert(visited@[map.pos_idx(pt)]);
                        }
                    }
                }
            }
        }
    }
    proof {
        let w = map.width as int;
        let h = map.height as int;
        assert forall|j: int, k: int|
            0 <= j < room.tiles.len() && 0 <= k < room.tiles.len() implies reachable(
            map.tiles@,
            w,
            h,
            floor.sprite,
            #[trigger] room.tiles@[j],
            #[trigger] room.tiles@[k],
        ) by {
            assert(reachable(map.tiles@, w, h, floor.sprite, starting, room.tiles@[j]));
            assert(reachable(map.tiles@, w, h, floor.sprite, starting, room.tiles@[k]));
            lemma_reachable_sym(map.tiles@, w, h, floor.sprite, starting, room.tiles@[j]);
            lemma_reachable_trans(
                map.tiles@,
                w,
                h,
                floor.sprite,
                room.tiles@[j],
                starting,
                room.tiles@[k],
            );
        }
    }
    room
}

/// Everything but the room list agrees between two maps.
pub open spec fn same_apart_from_rooms(a: WorldMap, b: WorldMap) -> bool {
    &&& a.tiles == b.tiles
    &&& a.visible == b.visible
    &&& a.discovered == b.discovered
    &&& a.beings == b.beings
    &&& a.width == b.width
    &&& a.height == b.height
    &&& a.depth == b.depth
}

/// Everything but the tile contents agrees between two maps.
pub open spec fn same_apart_from_tiles(a: WorldMap, b: WorldMap) -> bool {
    &&& a.tiles.len() == b.tiles.len()
    &&& a.rooms == b.rooms
    &&& a.visible == b.visible
    &&& a.discovered == b.discovered
    &&& a.beings == b.beings
    &&& a.width == b.width
    &&& a.height == b.height
    &&& a.depth == b.depth
}

/// The flat index lies strictly inside the map, off the outermost ring.
pub open spec fn spec_interior(m: WorldMap, i: int) -> bool {
    &&& 1 <= i % (m.width as int) < m.width - 1
    &&& 1 <= i / (m.width as int) < m.height - 1
}

/// Every tile index of the room is marked in the visited bitmap.
pub open spec fn room_marked(m: WorldMap, room: WorldRoom, visited: Seq<bool>) -> bool {
    forall|k: int| 0 <= k < room.tiles.len() ==> visited[m.pos_idx(#[trigger] room.tiles[k])]
}

/// The terrain that carving produces: each interior cell inside the
/// cavern band becomes the floor tile, every other cell keeps its tile.
pub open spec fn spec_carved_tiles(m0: WorldMap, carved: Seq<bool>, floor: WorldTile) -> Seq<
    WorldTile,
> {
    Seq::new(
        m0.tiles@.len(),
        |i: int|
            if spec_interior(m0, i) && carved[i] {
                floor
            } else {
                m0.tiles@[i]
            },
    )
}

/// Law: carving is deterministic. The carved terrain is a function of the
/// starting map, the band decisions and the floor tile alone, so two
/// carving passes over the same inputs agree tile for tile.
pub proof fn lemma_carving_deterministic(
    m0: WorldMap,
    carved: Seq<bool>,
    floor: WorldTile,
    t1: Seq<WorldTile>,
    t2: Seq<WorldTile>,
)
    requires
        t1 == spec_carved_tiles(m0, carved, floor),
        t2 == spec_carved_tiles(m0, carved, floor),
    ensures
        t1 == t2,
{
}

/// Carves cavern floor: every interior cell whose noise sample fell inside
/// the cavern band becomes the floor tile; the outermost ring and cells
/// outside the band keep their terrain. `carved` holds the per-cell band
/// decisions, sampled from the level's seeded noise field by the caller;
/// the carving is verified for every such bitmap.
pub fn create_caverns(map: &mut WorldMap, carved: &Vec<bool>, floor: WorldTile)
    requires
        old(map).wf(),
        carved.len() == old(map).tiles.len(),
    ensures
        final (map).wf(),
        same_apart_from_tiles(*old(map), *final (map)),
        final (map).tiles@ == spec_carved_tiles(*old(map), carved@, floor),
        forall|i: int|
            0 <= i < final (map).tiles.len() ==> final (map).tiles[i] == (if spec_interior(
                *old(map),
                i,
            ) && carved[i] {
                floor
            } else {
                old(map).tiles[i]
            }),
{
    let width = map.width;
    let height = map.height;
    let ghost m0 = *map;
    let mut x: usize = 1;
    while x < width - 1
        invariant
            map.wf(),
            same_apart_from_tiles(m0, *map),
            m0.wf(),
            carved.len() == m0.tiles.len(),
            width == m0.width,
            height == m0.height,
            x >= 1,
            forall|i: int| #![trigger map.tiles@[i]]
                0 <= i < map.tiles.len() ==> map.tiles[i] == (if spec_interior(m0, i) && carved[i]
                    && i % (m0.width as int) < x {
                    floor
                } else {
                    m0.tiles[i]
                }),
        decreases width - x,
    {
        let mut y: usize = 1;
        while y < height - 1
            invariant
                map.wf(),
                same_apart_from_tiles(m0, *map),
                m0.wf(),
                carved.len() == m0.tiles.len(),
                width == m0.width,
                height == m0.height,
                1 <= x < width - 1,
                y >= 1,
                forall|i: int| #![trigger map.tiles@[i]]
                    0 <= i < map.tiles.len() ==> map.tiles[i] == (if spec_interior(m0, i)
                        && carved[i] && (i % (m0.width as int) < x || (i % (m0.width as int) == x && i / (m0.width as int)
                        < y)) {
                        floor
                    } else {
                        m0.tiles[i]
                    }),
            decreases height - y,
        {
            proof {
                lemma_pos_idx_in_range(m0, Position { x, y });
            }
            let ghost head_tiles = map.tiles@;
            let idx = map.xy_to_idx(x, y);
            proof {
                vstd::arithmetic::div_mod::lemma_fundamental_div_mod_converse(
                    idx as int,
                    m0.width as int,
                    y as int,
                    x as int,
                );
            }
            if carved[idx] {
                map.tiles.set(idx, floor);
            }
            proof {
                let w = m0.width as int;
                assert forall|i: int| 0 <= i < map.tiles.len() implies map.tiles[i] == (if
                spec_interior(m0, i) && carved[i] && (i % (m0.width as int) < x || (i % (
                m0.width as int) == x && i / (m0.width as int) < y + 1)) {
                    floor
                } else {
                    m0.tiles[i]
                }) by {
                    vstd::arithmetic::div_mod::lemma_fundamental_div_mod(i, w);
                    assert(idx as int == x + y * w);
                    if i == idx as int {
                        assert(i % w == x as int);
                        assert(i / w == y as int);
                        assert(spec_interior(m0, i));
                        if carved[i] {
                            assert(map.tiles[i] == floor);
                        } else {
                            assert(map.tiles[i] == head_tiles[i]);
                            assert(head_tiles[i] == m0.tiles[i]);
                        }
                    } else {
                        let q = i / w;
                        let r = i % w;
                        assert(!(r == x && q == y)) by (nonlinear_arith)
                            requires
                                i == w * q + r,
                                idx as int == x + y * w,
                                i != idx as int,
                        ;
                        assert(map.tiles[i] == head_tiles[i]);
                        assert(head_tiles[i] == (if spec_interior(m0, i) && carved[i] && (i % (
                        m0.width as int) < x || (i % (m0.width as int) == x && i / (m0.width
                            as int) < y)) {
                            floor
                        } else {
                            m0.tiles[i]
                        }));
                    }
                }
            }
            y = y + 1;
        }
        x = x + 1;
    }
    proof {
        assert(map.tiles@ =~= spec_carved_tiles(m0, carved@, floor));
    }
}

/// Scans the map and collects every "body" of land as a room; if all floor
/// is connected there will be only one room. After the pass, every floor
/// tile belongs to exactly one room, rooms never share a tile, and every
/// tile of a room is reachable from every other tile of it through
/// orthogonal floor-to-floor moves.
pub fn cull_rooms(map: &mut WorldMap, floor: &WorldTile)
    requires
        old(map).wf(),
        old(map).rooms.len() == 0,
    ensures
        final (map).wf(),
        same_apart_from_rooms(*old(map), *final (map)),
        forall|r: int|
            0 <= r < final (map).rooms.len() ==> room_connected(
                #[trigger] final (map).rooms@[r],
                final (map).tiles@,
                final (map).width as int,
                final (map).height as int,
                floor.sprite,
            ),
        forall|r: int|
            0 <= r < final (map).rooms.len() ==> room_floor_closed(
                #[trigger] final (map).rooms@[r],
                final (map).tiles@,
                final (map).width as int,
                final (map).height as int,
                floor.sprite,
            ),
        forall|r: int|
            0 <= r < final (map).rooms.len() ==> (#[trigger] final (map).rooms@[r]).tiles@.no_duplicates(),
        forall|r: int|
            0 <= r < final (map).rooms.len() ==> (#[trigger] final (map).rooms@[r]).tiles.len()
                > 0,
        forall|r: int|
            0 <= r < final (map).rooms.len() ==> room_all_floor(
                #[trigger] final (map).rooms@[r],
                final (map).tiles@,
                final (map).width as int,
                floor.sprite,
            ),
        rooms_in_bounds(final (map).rooms@, final (map).width as int, final (map).height as int),
        rooms_disjoint(final (map).rooms@, final (map).width as int),
        forall|i: int| #![trigger final (map).tiles@[i]]
            0 <= i < final (map).tiles.len() && final (map).tiles[i].sprite == floor.sprite
                ==> idx_in_some_room(final (map).rooms@, final (map).width as int, i),
{
    let ghost m0 = *old(map);
    let ghost w = m0.width as int;
    let mut visited: Vec<bool> = Vec::new();
    let n = map.tiles.len();
    while visited.len() < n
        invariant
            visited.len() <= n,
            forall|j: int| 0 <= j < visited.len() ==> !(#[trigger] visited[j]),
            *map == m0,
            n == map.tiles.len(),
        decreases n - visited.len(),
    {
        visited.push(false);
    }
    let mut i: usize = 0;
    while i < n
        invariant
            map.wf(),
            same_apart_from_rooms(m0, *map),
            m0.wf(),
            w == m0.width,
            n == map.tiles.len(),
            visited.len() == n,
            i <= n,
            forall|j: int| 0 <= j < i ==> visited[j],
            forall|j: int| #![trigger map.tiles@[j]]
                0 <= j < n && visited[j] && map.tiles[j].sprite == floor.sprite
                    ==> idx_in_some_room(map.rooms@, w, j),
            forall|r: int|
                0 <= r < map.rooms.len() ==> room_all_floor(
                    #[trigger] map.rooms@[r],
                    map.tiles@,
                    w,
                    floor.sprite,
                ),
            rooms_in_bounds(map.rooms@, w, m0.height as int),
            forall|r: int|
                0 <= r < map.rooms.len() ==> room_marked(*map, #[trigger] map.rooms[r], visited@),
            forall|r: int|
                0 <= r < map.rooms.len() ==> room_connected(
                    #[trigger] map.rooms@[r],
                    map.tiles@,
                    w,
                    m0.height as int,
                    floor.sprite,
                ),
            forall|r: int|
                0 <= r < map.rooms.len() ==> room_floor_closed(
                    #[trigger] map.rooms@[r],
                    map.tiles@,
                    w,
                    m0.height as int,
                    floor.sprite,
                ),
            forall|r: int|
                0 <= r < map.rooms.len() ==> (#[trigger] map.rooms@[r]).tiles@.no_duplicates(),
            forall|r: int|
                0 <= r < map.rooms.len() ==> (#[trigger] map.rooms@[r]).tiles.len() > 0,
            rooms_disjoint(map.rooms@, w),
        decreases n - i,
    {
        if !visited[i] {
            if map.tiles[i].sprite == floor.sprite {
                proof {
                    crate::map::lemma_idx_in_bounds(*map, i as int);
                }
                let start = map.idx_to_pos(i);
                let ghost pre_visited = visited@;
                let ghost pre_rooms = map.rooms@;
                let room = flood_fill(start, map, floor, &mut visited);
                proof {
                    assert(room_all_floor(room, map.tiles@, w, floor.sprite));
                    assert(room_in_bounds(room, w, m0.height as int));
                    assert(room_connected(room, map.tiles@, w, m0.height as int, floor.sprite));
                    assert(room.tiles.len() > 0) by {
                        assert(room_has_idx(room, w, map.pos_idx(start)));
                        let kf = choose|kf: int|
                            0 <= kf < room.tiles.len() && pos_index(
                                #[trigger] room.tiles[kf],
                                w,
                            ) == map.pos_idx(start);
                    }
                    assert(room_marked(*map, room, visited@));
                    assert forall|r: int| 0 <= r < pre_rooms.len() implies room_marked(
                        *map,
                        #[trigger] pre_rooms[r],
                        visited@,
                    ) by {
                        assert(room_marked(*map, pre_rooms[r], pre_visited));
                    }
                }
                map.rooms.push(room);
                proof {
                    assert(map.rooms@ == pre_rooms.push(room));
                    let newr = map.rooms@.len() - 1;
                    // a tile of an earlier room was marked before this fill,
                    // a tile of the new room was not, so no tile is shared
                    assert forall|a: int, b: int, j: int|
                        0 <= a < map.rooms@.len() && 0 <= b < map.rooms@.len() && a != b implies !(
                    #[trigger] room_has_idx(map.rooms@[a], w, j) && #[trigger] room_has_idx(
                        map.rooms@[b],
                        w,
                        j,
                    )) by {
                        if room_has_idx(map.rooms@[a], w, j) && room_has_idx(
                            map.rooms@[b],
                            w,
                            j,
                        ) {
                            if a == newr || b == newr {
                                let o: int = if a == newr {
                                    b
                                } else {
                                    a
                                };
                                assert(map.rooms@[newr] == room);
                                assert(map.rooms@[o] == pre_rooms[o]);
                                assert(room_has_idx(room, w, j));
                                assert(room_has_idx(pre_rooms[o], w, j));
                                let k1 = choose|k: int|
                                    0 <= k < pre_rooms[o].tiles.len() && pos_index(
                                        pre_rooms[o].tiles[k],
                                        w,
                                    ) == j;
                                assert(room_marked(*map, pre_rooms[o], pre_visited));
                                assert(pre_visited[map.pos_idx(pre_rooms[o].tiles[k1])]);
                                assert(pre_visited[j]);
                                let k2 = choose|k: int|
                                    0 <= k < room.tiles.len() && pos_index(room.tiles[k], w) == j;
                                assert(!pre_visited[map.pos_idx(room.tiles[k2])]);
                                assert(!pre_visited[j]);
                            } else {
                                assert(map.rooms@[a] == pre_rooms[a]);
                                assert(map.rooms@[b] == pre_rooms[b]);
                                assert(room_has_idx(pre_rooms[a], w, j));
                                assert(room_has_idx(pre_rooms[b], w, j));
                                assert(!(room_has_idx(pre_rooms[a], w, j) && room_has_idx(
                                    pre_rooms[b],
                                    w,
                                    j,
                                )));
                            }
                        }
                    }
                    assert forall|j: int| #![trigger map.tiles@[j]]
                        0 <= j < n && visited[j] && map.tiles[j].sprite
                            == floor.sprite implies idx_in_some_room(map.rooms@, w, j) by {
                        if pre_visited[j] {
                            assert(idx_in_some_room(pre_rooms, w, j));
                            let r = choose|r: int|
                                0 <= r < pre_rooms.len() && room_has_idx(
                                    #[trigger] pre_rooms[r],
                                    w,
                                    j,
                                );
                            assert(map.rooms@[r] == pre_rooms[r]);
                            assert(room_has_idx(map.rooms@[r], w, j));
                        } else {
                            assert(room_has_idx(room, w, j));
                            assert(map.rooms@[newr] == room);
                            assert(room_has_idx(map.rooms@[newr], w, j));
                        }
                    }
                    let h = m0.height as int;
                    // the new room swallows its whole body of land: a floor
                    // neighbor of one of its tiles was either settled by this
                    // very fill, or already sat in an earlier room whose own
                    // closure would pull the new tile in, against disjointness
                    assert forall|rr: int| 0 <= rr < map.rooms@.len() implies room_floor_closed(
                        #[trigger] map.rooms@[rr],
                        map.tiles@,
                        w,
                        h,
                        floor.sprite,
                    ) by {
                        if rr < newr {
                            assert(map.rooms@[rr] == pre_rooms[rr]);
                            assert(room_floor_closed(pre_rooms[rr], map.tiles@, w, h, floor.sprite));
                        } else {
                            assert(map.rooms@[rr] == room);
                            assert forall|k: int, q: Position|
                                0 <= k < room.tiles.len() && #[trigger] floor_step(
                                    map.tiles@,
                                    w,
                                    h,
                                    room.tiles@[k],
                                    q,
                                    floor.sprite,
                                ) implies room.tiles@.contains(q) by {
                                lemma_pos_index_range(q, w, h);
                                let qi = pos_index(q, w);
                                assert(visited@[qi]);
                                if pre_visited[qi] {
                                    assert(idx_in_some_room(pre_rooms, w, qi));
                                    let r0 = choose|r0: int|
                                        0 <= r0 < pre_rooms.len() && room_has_idx(
                                            #[trigger] pre_rooms[r0],
                                            w,
                                            qi,
                                        );
                                    let kk = choose|kk: int|
                                        0 <= kk < pre_rooms[r0].tiles.len() && pos_index(
                                            pre_rooms[r0].tiles[kk],
                                            w,
                                        ) == qi;
                                    assert(room_in_bounds(pre_rooms[r0], w, h));
                                    lemma_pos_index_injective(pre_rooms[r0].tiles@[kk], q, w);
                                    assert(pre_rooms[r0].tiles@[kk] == q);
                                    assert(pre_rooms[r0].tiles@.contains(q));
                                    assert(floor_step(
                                        map.tiles@,
                                        w,
                                        h,
                                        q,
                                        room.tiles@[k],
                                        floor.sprite,
                                    ));
                                    let kq = choose|kq: int|
                                        0 <= kq < pre_rooms[r0].tiles@.len()
                                            && pre_rooms[r0].tiles@[kq] == q;
                                    assert(floor_step(
                                        map.tiles@,
                                        w,
                                        h,
                                        pre_rooms[r0].tiles@[kq],
                                        room.tiles@[k],
                                        floor.sprite,
                                    ));
                                    assert(room_floor_closed(
                                        pre_rooms[r0],
                                        map.tiles@,
                                        w,
                                        h,
                                        floor.sprite,
                                    ));
                                    assert(pre_rooms[r0].tiles@.contains(room.tiles@[k]));
                                    // but this fill's tiles were all unmarked
                                    // before it ran, while that room's were
                                    // marked: the same tile cannot be both
                                    let km = choose|km: int|
                                        0 <= km < pre_rooms[r0].tiles@.len()
                                            && pre_rooms[r0].tiles@[km] == room.tiles@[k];
                                    assert(room_marked(*map, pre_rooms[r0], pre_visited));
                                    assert(pre_visited[map.pos_idx(pre_rooms[r0].tiles@[km])]);
                                    assert(!pre_visited[map.pos_idx(room.tiles@[k])]);
                                    assert(false);
                                } else {
                                    assert(map.tiles@[qi].sprite == floor.sprite);
                                    assert(room_has_idx(room, w, qi));
                                    let kk = choose|kk: int|
                                        0 <= kk < room.tiles.len() && pos_index(
                                            room.tiles[kk],
                                            w,
                                        ) == qi;
                                    lemma_pos_index_injective(room.tiles@[kk], q, w);
                                    assert(room.tiles@[kk] == q);
                                }
                            }
                        }
                    }
                }
            } else {
                visited.set(i, true);
            }
        }
        i = i + 1;
    }
}


/// In-range coordinates give an in-range flat index.
proof fn lemma_pos_index_range(p: Position, w: int, h: int)
    requires
        0 <= p.x < w,
        0 <= p.y < h,
    ensures
        0 <= pos_index(p, w) < w * h,
{
    assert(p.x + p.y * w < w * h) by (nonlinear_arith)
        requires
            0 <= p.x < w,
            0 <= p.y < h,
    ;
}

/// The flat index lies in one of the listed rooms below the size
/// threshold: exactly the cells that culling is allowed to reset.
pub open spec fn idx_in_small_room(
    rooms: Seq<WorldRoom>,
    width: int,
    min_size: usize,
    i: int,
) -> bool {
    exists|r: int|
        0 <= r < rooms.len() && (#[trigger] rooms[r]).tiles.len() < min_size && room_has_idx(
            rooms[r],
            width,
            i,
        )
}

/// The culling criterion: a room survives when it holds at least the
/// minimum number of tiles.
pub open spec fn culled_size_pred(min_size: usize) -> spec_fn(WorldRoom) -> bool {
    |room: WorldRoom| room.tiles.len() >= min_size
}

/// Removes rooms that are under a certain size, resetting their tiles to
/// the wall tile. The room list afterwards is exactly the subsequence of
/// rooms of culled size, in their old order, their tile lists and terrain
/// kept; every tile of a removed room is the wall tile.
pub fn remove_small_rooms(map: &mut WorldMap, min_size: usize, wall: WorldTile)
    requires
        old(map).wf(),
        rooms_in_bounds(old(map).rooms@, old(map).width as int, old(map).height as int),
        rooms_disjoint(old(map).rooms@, old(map).width as int),
    ensures
        final (map).wf(),
        final (map).width == old(map).width,
        final (map).height == old(map).height,
        final (map).depth == old(map).depth,
        final (map).visible == old(map).visible,
        final (map).discovered == old(map).discovered,
        final (map).beings == old(map).beings,
        final (map).tiles.len() == old(map).tiles.len(),
        forall|r: int|
            0 <= r < final (map).rooms.len() ==> (#[trigger] final (map).rooms@[r]).tiles.len()
                >= min_size,
        forall|r: int|
            0 <= r < final (map).rooms.len() ==> room_among(
                #[trigger] final (map).rooms@[r],
                old(map).rooms@,
            ),
        final (map).rooms@ == old(map).rooms@.filter(culled_size_pred(min_size)),
        forall|r: int, k: int|
            #![trigger old(map).rooms@[r].tiles@[k]]
            0 <= r < old(map).rooms.len() && old(map).rooms@[r].tiles.len() < min_size && 0 <= k
                < old(map).rooms@[r].tiles.len() ==> final (map).tiles@[pos_index(
                old(map).rooms@[r].tiles@[k],
                old(map).width as int,
            )] == wall,
        forall|i: int|
            #![trigger final (map).tiles@[i]]
            0 <= i < final (map).tiles.len() && final (map).tiles@[i] != old(map).tiles@[i]
                ==> final (map).tiles@[i] == wall && idx_in_small_room(
                old(map).rooms@,
                old(map).width as int,
                min_size,
                i,
            ),
        forall|r: int, k: int|
            0 <= r < final (map).rooms.len() && 0 <= k < final (map).rooms@[r].tiles.len()
                ==> final (map).tiles@[pos_index(
                #[trigger] final (map).rooms@[r].tiles@[k],
                final (map).width as int,
            )] == old(map).tiles@[pos_index(final (map).rooms@[r].tiles@[k], final (map).width as int)],
        rooms_in_bounds(final (map).rooms@, final (map).width as int, final (map).height as int),
        rooms_disjoint(final (map).rooms@, final (map).width as int),
{
    let ghost m0 = *old(map);
    let ghost w = m0.width as int;
    let ghost h = m0.height as int;
    // first pass: reset the terrain of every room under the size threshold
    let mut r: usize = 0;
    while r < map.rooms.len()
        invariant
            map.wf(),
            same_apart_from_tiles(m0, *map),
            m0.wf(),
            w == m0.width,
            h == m0.height,
            r <= map.rooms.len(),
            rooms_in_bounds(m0.rooms@, w, h),
            rooms_disjoint(m0.rooms@, w),
            forall|i: int|
                #![trigger map.tiles@[i]]
                0 <= i < map.tiles.len() && map.tiles@[i] != m0.tiles@[i] ==> map.tiles@[i]
                    == wall && idx_in_small_room(m0.rooms@, w, min_size, i),
            forall|rr: int, k: int|
                0 <= rr < m0.rooms.len() && m0.rooms@[rr].tiles.len() >= min_size && 0 <= k < m0
                    .rooms@[rr].tiles.len() ==> map.tiles@[pos_index(
                    #[trigger] m0.rooms@[rr].tiles@[k],
                    w,
                )] == m0.tiles@[pos_index(m0.rooms@[rr].tiles@[k], w)],
            forall|rr: int, kk: int|
                #![trigger m0.rooms@[rr].tiles@[kk]]
                0 <= rr < r && m0.rooms@[rr].tiles.len() < min_size && 0 <= kk < m0.rooms@[
                rr].tiles.len() ==> map.tiles@[pos_index(m0.rooms@[rr].tiles@[kk], w)] == wall,
        decreases map.rooms.len() - r,
    {
        if map.rooms[r].tiles.len() < min_size {
            let mut k: usize = 0;
            while k < map.rooms[r].tiles.len()
                invariant
                    map.wf(),
                    same_apart_from_tiles(m0, *map),
                    m0.wf(),
                    w == m0.width,
                    h == m0.height,
                    r < map.rooms.len(),
                    map.rooms@[r as int].tiles.len() < min_size,
                    k <= map.rooms@[r as int].tiles.len(),
                    rooms_in_bounds(m0.rooms@, w, h),
                    rooms_disjoint(m0.rooms@, w),
                    forall|i: int|
                        #![trigger map.tiles@[i]]
                        0 <= i < map.tiles.len() && map.tiles@[i] != m0.tiles@[i]
                            ==> map.tiles@[i] == wall && idx_in_small_room(
                            m0.rooms@,
                            w,
                            min_size,
                            i,
                        ),
                    forall|rr: int, kk: int|
                        0 <= rr < m0.rooms.len() && m0.rooms@[rr].tiles.len() >= min_size && 0
                            <= kk < m0.rooms@[rr].tiles.len() ==> map.tiles@[pos_index(
                            #[trigger] m0.rooms@[rr].tiles@[kk],
                            w,
                        )] == m0.tiles@[pos_index(m0.rooms@[rr].tiles@[kk], w)],
                    forall|rr: int, kk: int|
                        #![trigger m0.rooms@[rr].tiles@[kk]]
                        0 <= rr < r && m0.rooms@[rr].tiles.len() < min_size && 0 <= kk < m0
                            .rooms@[rr].tiles.len() ==> map.tiles@[pos_index(
                            m0.rooms@[rr].tiles@[kk],
                            w,
                        )] == wall,
                    forall|kk: int|
                        0 <= kk < k ==> map.tiles@[pos_index(
                            #[trigger] m0.rooms@[r as int].tiles@[kk],
                            w,
                        )] == wall,
                decreases map.rooms@[r as int].tiles.len() - k,
            {
                let p = map.rooms[r].tiles[k];
                proof {
                    assert(room_in_bounds(m0.rooms@[r as int], w, h));
                    lemma_pos_index_range(p, w, h);
                }
                let idx = map.xy_to_idx(p.x, p.y);
                let ghost pre_tiles = map.tiles@;
                map.tiles.set(idx, wall);
                proof {
                    assert(pos_index(m0.rooms@[r as int].tiles@[k as int], w) == idx as int);
                    assert(room_has_idx(m0.rooms@[r as int], w, idx as int));
                    assert(idx_in_small_room(m0.rooms@, w, min_size, idx as int));
                    assert forall|rr: int, kk: int|
                        0 <= rr < m0.rooms.len() && m0.rooms@[rr].tiles.len() >= min_size && 0
                            <= kk < m0.rooms@[rr].tiles.len() implies map.tiles@[pos_index(
                        #[trigger] m0.rooms@[rr].tiles@[kk],
                        w,
                    )] == m0.tiles@[pos_index(m0.rooms@[rr].tiles@[kk], w)] by {
                        let q = m0.rooms@[rr].tiles@[kk];
                        assert(room_in_bounds(m0.rooms@[rr], w, h));
                        lemma_pos_index_range(q, w, h);
                        if pos_index(q, w) == idx as int {
                            assert(room_has_idx(m0.rooms@[rr], w, idx as int));
                            assert(pos_index(m0.rooms@[r as int].tiles@[k as int], w)
                                == idx as int);
                            assert(room_has_idx(m0.rooms@[r as int], w, idx as int));
                            assert(rr != r);
                            assert(false);
                        } else {
                            assert(map.tiles@[pos_index(q, w)] == pre_tiles[pos_index(q, w)]);
                        }
                    }
                    assert forall|rr: int, kk: int|
                        #![trigger m0.rooms@[rr].tiles@[kk]]
                        0 <= rr < r && m0.rooms@[rr].tiles.len() < min_size && 0 <= kk < m0
                            .rooms@[rr].tiles.len() implies map.tiles@[pos_index(
                        m0.rooms@[rr].tiles@[kk],
                        w,
                    )] == wall by {
                        assert(room_in_bounds(m0.rooms@[rr], w, h));
                        lemma_pos_index_range(m0.rooms@[rr].tiles@[kk], w, h);
                    }
                    assert forall|kk: int| 0 <= kk < k + 1 implies map.tiles@[pos_index(
                        #[trigger] m0.rooms@[r as int].tiles@[kk],
                        w,
                    )] == wall by {
                        lemma_pos_index_range(m0.rooms@[r as int].tiles@[kk], w, h);
                        if kk == k {
                            assert(m0.rooms@[r as int].tiles@[kk] == p);
                        }
                    }
                }
                k = k + 1;
            }
        }
        r = r + 1;
    }
    // second pass: drop the culled rooms from the list
    let ghost t1 = map.tiles@;
    proof {
        assert forall|rr: int| 0 <= rr < map.rooms.len() implies room_among(
            #[trigger] map.rooms@[rr],
            m0.rooms@,
        ) by {
            assert(map.rooms@[rr] == m0.rooms@[rr]);
        }
    }
    let mut r2: usize = 0;
    let ghost mut pdone: int = 0;
    proof {
        assert(map.rooms@ =~= m0.rooms@.take(0).filter(culled_size_pred(min_size))
            + m0.rooms@.skip(0));
    }
    while r2 < map.rooms.len()
        invariant
            map.wf(),
            m0.wf(),
            w == m0.width,
            h == m0.height,
            map.tiles@ == t1,
            map.width == m0.width,
            map.height == m0.height,
            map.depth == m0.depth,
            map.visible == m0.visible,
            map.discovered == m0.discovered,
            map.beings == m0.beings,
            0 <= pdone <= m0.rooms.len(),
            map.rooms@ == m0.rooms@.take(pdone).filter(culled_size_pred(min_size))
                + m0.rooms@.skip(pdone),
            r2 == m0.rooms@.take(pdone).filter(culled_size_pred(min_size)).len(),
            r2 <= map.rooms.len(),
            forall|rr: int|
                0 <= rr < r2 ==> (#[trigger] map.rooms@[rr]).tiles.len() >= min_size,
            forall|rr: int|
                0 <= rr < map.rooms.len() ==> room_among(#[trigger] map.rooms@[rr], m0.rooms@),
            rooms_in_bounds(map.rooms@, w, h),
            rooms_disjoint(map.rooms@, w),
        decreases map.rooms.len() - r2,
    {
        if map.rooms[r2].tiles.len() < min_size {
            let ghost pre_rooms = map.rooms@;
            map.rooms.remove(r2);
            proof {
                pre_rooms.remove_ensures(r2 as int);
                broadcast use vstd::seq::Seq::lemma_filter_push;

                let pred = culled_size_pred(min_size);
                let elem = m0.rooms@[pdone];
                assert(m0.rooms@.skip(pdone)[0] == elem);
                assert(pre_rooms[r2 as int] == elem);
                assert(!pred(elem));
                m0.rooms@.lemma_take_succ_push(pdone);
                assert(m0.rooms@.take(pdone + 1).filter(pred) == m0.rooms@.take(pdone).filter(
                    pred,
                ));
                assert(map.rooms@ =~= m0.rooms@.take(pdone + 1).filter(pred) + m0.rooms@.skip(
                    pdone + 1,
                ));
                pdone = pdone + 1;
                assert forall|rr: int| 0 <= rr < map.rooms.len() implies room_among(
                    #[trigger] map.rooms@[rr],
                    m0.rooms@,
                ) by {
                    if rr < r2 {
                        assert(map.rooms@[rr] == pre_rooms[rr]);
                        assert(room_among(pre_rooms[rr], m0.rooms@));
                    } else {
                        assert(map.rooms@[rr] == pre_rooms[rr + 1]);
                        assert(room_among(pre_rooms[rr + 1], m0.rooms@));
                    }
                }
                assert forall|rr: int| 0 <= rr < map.rooms.len() implies room_in_bounds(
                    #[trigger] map.rooms@[rr],
                    w,
                    h,
                ) by {
                    if rr < r2 {
                        assert(map.rooms@[rr] == pre_rooms[rr]);
                    } else {
                        assert(map.rooms@[rr] == pre_rooms[rr + 1]);
                    }
                }
                assert forall|a: int, b: int, i: int|
                    0 <= a < map.rooms@.len() && 0 <= b < map.rooms@.len() && a != b implies !(
                #[trigger] room_has_idx(map.rooms@[a], w, i) && #[trigger] room_has_idx(
                    map.rooms@[b],
                    w,
                    i,
                )) by {
                    let a0: int = if a < r2 {
                        a
                    } else {
                        a + 1
                    };
                    let b0: int = if b < r2 {
                        b
                    } else {
                        b + 1
                    };
                    assert(map.rooms@[a] == pre_rooms[a0]);
                    assert(map.rooms@[b] == pre_rooms[b0]);
                    if room_has_idx(map.rooms@[a], w, i) && room_has_idx(map.rooms@[b], w, i) {
                        assert(room_has_idx(pre_rooms[a0], w, i));
                        assert(room_has_idx(pre_rooms[b0], w, i));
                        assert(a0 != b0);
                        assert(!(room_has_idx(pre_rooms[a0], w, i) && room_has_idx(
                            pre_rooms[b0],
                            w,
                            i,
                        )));
                    }
                }
            }
        } else {
            proof {
                broadcast use vstd::seq::Seq::lemma_filter_push;

                let pred = culled_size_pred(min_size);
                let elem = m0.rooms@[pdone];
                assert(m0.rooms@.skip(pdone)[0] == elem);
                assert(map.rooms@[r2 as int] == elem);
                assert(pred(elem));
                m0.rooms@.lemma_take_succ_push(pdone);
                assert(m0.rooms@.take(pdone + 1).filter(pred) == m0.rooms@.take(pdone).filter(
                    pred,
                ).push(elem));
                assert(map.rooms@ =~= m0.rooms@.take(pdone + 1).filter(pred) + m0.rooms@.skip(
                    pdone + 1,
                ));
                pdone = pdone + 1;
            }
            r2 = r2 + 1;
        }
    }
    proof {
        let pred = culled_size_pred(min_size);
        assert(m0.rooms@.take(pdone).filter(pred).len() + m0.rooms@.skip(pdone).len()
            == map.rooms@.len());
        assert(pdone == m0.rooms@.len());
        assert(m0.rooms@.take(pdone) =~= m0.rooms@);
        assert(map.rooms@ =~= m0.rooms@.filter(pred));
    }
    proof {
        assert forall|r: int, k: int|
            0 <= r < map.rooms.len() && 0 <= k < map.rooms@[r].tiles.len() implies map.tiles@[
        pos_index(#[trigger] map.rooms@[r].tiles@[k], w)] == m0.tiles@[pos_index(
            map.rooms@[r].tiles@[k],
            w,
        )] by {
            assert(room_among(map.rooms@[r], m0.rooms@));
            let r0 = choose|r0: int| 0 <= r0 < m0.rooms@.len() && map.rooms@[r] == #[trigger] m0.rooms@[r0];
            assert(m0.rooms@[r0].tiles.len() >= min_size);
            assert(map.tiles@[pos_index(m0.rooms@[r0].tiles@[k], w)] == m0.tiles@[pos_index(
                m0.rooms@[r0].tiles@[k],
                w,
            )]);
        }
    }
}

/// Two distinct in-bounds positions never share a flat index.
proof fn lemma_pos_index_injective(p: Position, q: Position, w: int)
    requires
        0 <= p.x < w,
        0 <= q.x < w,
        pos_index(p, w) == pos_index(q, w),
    ensures
        p == q,
{
    vstd::arithmetic::div_mod::lemma_fundamental_div_mod_converse(
        pos_index(p, w),
        w,
        p.y as int,
        p.x as int,
    );
    vstd::arithmetic::div_mod::lemma_fundamental_div_mod_converse(
        pos_index(q, w),
        w,
        q.y as int,
        q.x as int,
    );
}

/// Places a tile on a uniformly random tile of a uniformly random
/// surviving room, and returns the position where the tile was placed.
pub fn place_tile_in_random_room(
    map: &mut WorldMap,
    rng: &mut RandomNumberGenerator,
    tile: WorldTile,
) -> (pos: Position)
    requires
        old(map).wf(),
        old(map).rooms.len() > 0,
        forall|r: int|
            0 <= r < old(map).rooms.len() ==> (#[trigger] old(map).rooms@[r]).tiles.len() > 0,
        rooms_in_bounds(old(map).rooms@, old(map).width as int, old(map).height as int),
    ensures
        final (map).wf(),
        same_apart_from_tiles(*old(map), *final (map)),
        final (map).in_bounds(pos),
        exists|r: int|
            0 <= r < final (map).rooms.len() && (#[trigger] final (map).rooms@[r]).tiles@.contains(
                pos,
            ),
        idx_in_some_room(
            final (map).rooms@,
            final (map).width as int,
            pos_index(pos, final (map).width as int),
        ),
        final (map).tiles@[pos_index(pos, final (map).width as int)] == tile,
        forall|i: int|
            #![trigger final (map).tiles@[i]]
            0 <= i < final (map).tiles.len() && i != pos_index(pos, final (map).width as int)
                ==> final (map).tiles@[i] == old(map).tiles@[i],
{
    let room_idx = rng_range(rng, 0, map.rooms.len());
    let room_pos_idx = rng_range(rng, 0, map.rooms[room_idx].tiles.len());
    let tile_pos = map.rooms[room_idx].tiles[room_pos_idx];
    proof {
        assert(room_in_bounds(map.rooms@[room_idx as int], map.width as int, map.height as int));
        assert(map.in_bounds(tile_pos));
        lemma_pos_idx_in_range(*map, tile_pos);
    }
    let idx = map.xy_to_idx(tile_pos.x, tile_pos.y);
    map.tiles.set(idx, tile);
    proof {
        assert(map.rooms@[room_idx as int].tiles@[room_pos_idx as int] == tile_pos);
        assert(map.rooms@[room_idx as int].tiles@.contains(tile_pos));
        assert(room_has_idx(map.rooms@[room_idx as int], map.width as int, idx as int));
    }
    tile_pos
}

/// What a stamped cell receives from the prefab: the drawing's tile at
/// the relative coordinates, with the spawn-marker cell turned into the
/// grass tile.
pub open spec fn spec_stamped_tile(prefab: Prefab, grass: WorldTile, px: int, py: int) -> WorldTile {
    if prefab.structure@[px + py * prefab.width].sprite.glyph
        == crate::prefab::PLAYER_MARKER_GLYPH {
        grass
    } else {
        prefab.structure@[px + py * prefab.width]
    }
}

/// Copies a prefab onto the map at the given offset, skipping any
/// destination cell already carved to the `skip` floor so the prefab
/// blends into the surrounding terrain. The spawn-marker cell becomes the
/// `grass` tile and its absolute map coordinate is returned; tiles outside
/// the stamped rectangle are left untouched.
pub fn stamp_prefab(
    map: &mut WorldMap,
    prefab: &Prefab,
    ox: usize,
    oy: usize,
    skip: &WorldTile,
    grass: &WorldTile,
) -> (spawn: Option<Position>)
    requires
        old(map).wf(),
        prefab.wf(),
        ox + prefab.width <= old(map).width,
        oy + prefab.height <= old(map).height,
        prefab.width >= 1,
        prefab.height >= 1,
    ensures
        final (map).wf(),
        same_apart_from_tiles(*old(map), *final (map)),
        forall|i: int|
            #![trigger final (map).tiles@[i]]
            0 <= i < final (map).tiles.len() && !(ox <= i % (old(map).width as int) < ox
                + prefab.width && oy <= i / (old(map).width as int) < oy + prefab.height)
                ==> final (map).tiles@[i] == old(map).tiles@[i],
        forall|i: int|
            #![trigger final (map).tiles@[i]]
            0 <= i < final (map).tiles.len() && old(map).tiles@[i].sprite == skip.sprite
                ==> final (map).tiles@[i] == old(map).tiles@[i],
        forall|i: int|
            #![trigger final (map).tiles@[i]]
            0 <= i < final (map).tiles.len() && (ox <= i % (old(map).width as int) < ox
                + prefab.width && oy <= i / (old(map).width as int) < oy + prefab.height) && old(
                map,
            ).tiles@[i].sprite != skip.sprite ==> final (map).tiles@[i] == spec_stamped_tile(
                *prefab,
                *grass,
                i % (old(map).width as int) - ox,
                i / (old(map).width as int) - oy,
            ),
        spawn matches Some(p) ==> {
            &&& ox <= p.x < ox + prefab.width
            &&& oy <= p.y < oy + prefab.height
            &&& final (map).in_bounds(p)
            &&& final (map).tiles@[pos_index(p, old(map).width as int)] == *grass
            &&& old(map).tiles@[pos_index(p, old(map).width as int)].sprite != skip.sprite
            &&& prefab.structure@[(p.x - ox) + (p.y - oy) * prefab.width].sprite.glyph
                == crate::prefab::PLAYER_MARKER_GLYPH
        },
        spawn is None ==> (forall|pi: int|
            0 <= pi < prefab.structure.len() && (#[trigger] prefab.structure@[pi]).sprite.glyph
                == crate::prefab::PLAYER_MARKER_GLYPH ==> old(map).tiles@[(ox + pi % (
            prefab.width as int)) + (oy + pi / (prefab.width as int)) * (old(
                map,
            ).width as int)].sprite == skip.sprite),
{
    let ghost m0 = *old(map);
    let ghost w = m0.width as int;
    let mut player_spawn: Option<Position> = None;
    let mut x: usize = ox;
    while x < ox + prefab.width
        invariant
            map.wf(),
            same_apart_from_tiles(m0, *map),
            m0.wf(),
            w == m0.width,
            prefab.wf(),
            ox + prefab.width <= m0.width,
            oy + prefab.height <= m0.height,
            prefab.width >= 1,
            prefab.height >= 1,
            ox <= x <= ox + prefab.width,
            forall|i: int|
                #![trigger map.tiles@[i]]
                0 <= i < map.tiles.len() && !(ox <= i % w < x && oy <= i / w < oy
                    + prefab.height) ==> map.tiles@[i] == m0.tiles@[i],
            forall|i: int|
                #![trigger map.tiles@[i]]
                0 <= i < map.tiles.len() && m0.tiles@[i].sprite == skip.sprite ==> map.tiles@[i]
                    == m0.tiles@[i],
            forall|i: int|
                #![trigger map.tiles@[i]]
                0 <= i < map.tiles.len() && (ox <= i % w < x && oy <= i / w < oy + prefab.height)
                    && m0.tiles@[i].sprite != skip.sprite ==> map.tiles@[i] == spec_stamped_tile(
                    *prefab,
                    *grass,
                    i % w - ox,
                    i / w - oy,
                ),
            player_spawn matches Some(p) ==> {
                &&& ox <= p.x < ox + prefab.width
                &&& oy <= p.y < oy + prefab.height
                &&& p.x < x
                &&& map.in_bounds(p)
                &&& map.tiles@[pos_index(p, w)] == *grass
                &&& m0.tiles@[pos_index(p, w)].sprite != skip.sprite
                &&& prefab.structure@[(p.x - ox) + (p.y - oy) * prefab.width].sprite.glyph
                    == crate::prefab::PLAYER_MARKER_GLYPH
            },
            player_spawn is None ==> (forall|pi: int|
                0 <= pi < prefab.structure.len() && pi % (prefab.width as int) < x - ox && (
                #[trigger] prefab.structure@[pi]).sprite.glyph
                    == crate::prefab::PLAYER_MARKER_GLYPH ==> m0.tiles@[(ox + pi % (
                prefab.width as int)) + (oy + pi / (prefab.width as int)) * w].sprite
                    == skip.sprite),
        decreases ox + prefab.width - x,
    {
        let mut y: usize = oy;
        while y < oy + prefab.height
            invariant
                map.wf(),
                same_apart_from_tiles(m0, *map),
                m0.wf(),
                w == m0.width,
                prefab.wf(),
                ox + prefab.width <= m0.width,
                oy + prefab.height <= m0.height,
                prefab.width >= 1,
                prefab.height >= 1,
                ox <= x < ox + prefab.width,
                oy <= y <= oy + prefab.height,
                forall|i: int|
                    #![trigger map.tiles@[i]]
                    0 <= i < map.tiles.len() && !((ox <= i % w < x && oy <= i / w < oy
                        + prefab.height) || (i % w == x && oy <= i / w < y)) ==> map.tiles@[i]
                        == m0.tiles@[i],
                forall|i: int|
                    #![trigger map.tiles@[i]]
                    0 <= i < map.tiles.len() && m0.tiles@[i].sprite == skip.sprite
                        ==> map.tiles@[i] == m0.tiles@[i],
                forall|i: int|
                    #![trigger map.tiles@[i]]
                    0 <= i < map.tiles.len() && ((ox <= i % w < x && oy <= i / w < oy
                        + prefab.height) || (i % w == x && oy <= i / w < y))
                        && m0.tiles@[i].sprite != skip.sprite ==> map.tiles@[i]
                        == spec_stamped_tile(*prefab, *grass, i % w - ox, i / w - oy),
                player_spawn matches Some(p) ==> {
                    &&& ox <= p.x < ox + prefab.width
                    &&& oy <= p.y < oy + prefab.height
                    &&& (p.x < x || (p.x == x && p.y < y))
                    &&& map.in_bounds(p)
                    &&& map.tiles@[pos_index(p, w)] == *grass
                    &&& m0.tiles@[pos_index(p, w)].sprite != skip.sprite
                    &&& prefab.structure@[(p.x - ox) + (p.y - oy) * prefab.width].sprite.glyph
                        == crate::prefab::PLAYER_MARKER_GLYPH
                },
                player_spawn is None ==> (forall|pi: int|
                    0 <= pi < prefab.structure.len() && (pi % (prefab.width as int) < x - ox || (
                    pi % (prefab.width as int) == x - ox && pi / (prefab.width as int) < y - oy))
                        && (#[trigger] prefab.structure@[pi]).sprite.glyph
                        == crate::prefab::PLAYER_MARKER_GLYPH ==> m0.tiles@[(ox + pi % (
                    prefab.width as int)) + (oy + pi / (prefab.width as int)) * w].sprite
                        == skip.sprite),
            decreases oy + prefab.height - y,
        {
            proof {
                lemma_pos_idx_in_range(m0, Position { x, y });
            }
            let idx = map.xy_to_idx(x, y);
            proof {
                vstd::arithmetic::div_mod::lemma_fundamental_div_mod_converse(
                    idx as int,
                    w,
                    y as int,
                    x as int,
                );
            }
            proof {
                assert((x - ox) + (y - oy) * prefab.width < prefab.width * prefab.height)
                    by (nonlinear_arith)
                    requires
                        0 <= x - ox < prefab.width,
                        0 <= y - oy < prefab.height,
                ;
            }
            let prefab_idx = crate::prefab::xy_to_idx(x - ox, y - oy, prefab.width);
            let prefab_tile = prefab.structure[prefab_idx];
            let ghost head_tiles = map.tiles@;
            if !(map.tiles[idx].sprite == skip.sprite) {
                // checks for the special player spawn tile in the prefab
                if prefab_tile.sprite.glyph == crate::prefab::PLAYER_MARKER_GLYPH {
                    player_spawn = Some(Position { x, y });
                    map.tiles.set(idx, *grass);
                } else {
                    map.tiles.set(idx, prefab_tile);
                }
            }
            proof {
                if player_spawn is Some {
                    let p = player_spawn->Some_0;
                    lemma_pos_index_range(p, w, m0.height as int);
                    if p.x != x || p.y != y {
                        if pos_index(p, w) == idx as int {
                            lemma_pos_index_injective(p, Position { x, y }, w);
                        }
                        assert(pos_index(p, w) != idx as int);
                    }
                } else {
                    let pw = prefab.width as int;
                    assert forall|pi: int|
                        0 <= pi < prefab.structure.len() && (pi % pw < x - ox || (pi % pw == x
                            - ox && pi / pw < y + 1 - oy)) && (#[trigger] prefab.structure@[
                        pi]).sprite.glyph == crate::prefab::PLAYER_MARKER_GLYPH implies m0.tiles@[(
                    ox + pi % pw) + (oy + pi / pw) * w].sprite == skip.sprite by {
                        vstd::arithmetic::div_mod::lemma_fundamental_div_mod(pi, pw);
                        if pi % pw == x - ox && pi / pw == y - oy {
                            let q = pi / pw;
                            let rr = pi % pw;
                            assert(pi == prefab_idx) by (nonlinear_arith)
                                requires
                                    pi == pw * q + rr,
                                    rr == x - ox,
                                    q == y - oy,
                                    prefab_idx as int == (x - ox) + (y - oy) * pw,
                            ;
                            assert(prefab_tile == prefab.structure@[pi]);
                            assert(head_tiles[idx as int].sprite == skip.sprite);
                            assert(head_tiles[idx as int] == m0.tiles@[idx as int]);
                            assert((ox + pi % pw) + (oy + pi / pw) * w == idx as int);
                        }
                    }
                }
                assert forall|i: int| #![trigger map.tiles@[i]]
                    0 <= i < map.tiles.len() && !((ox <= i % w < x && oy <= i / w < oy
                        + prefab.height) || (i % w == x && oy <= i / w < y + 1)) implies
                    map.tiles@[i] == m0.tiles@[i] by {
                    vstd::arithmetic::div_mod::lemma_fundamental_div_mod(i, w);
                }
                assert forall|i: int| #![trigger map.tiles@[i]]
                    0 <= i < map.tiles.len() && ((ox <= i % w < x && oy <= i / w < oy
                        + prefab.height) || (i % w == x && oy <= i / w < y + 1))
                        && m0.tiles@[i].sprite != skip.sprite implies map.tiles@[i]
                        == spec_stamped_tile(*prefab, *grass, i % w - ox, i / w - oy) by {
                    vstd::arithmetic::div_mod::lemma_fundamental_div_mod(i, w);
                    if i == idx as int {
                        assert(head_tiles[i] == m0.tiles@[i]);
                        assert(head_tiles[i].sprite != skip.sprite);
                        assert(prefab_idx as int == (x - ox) + (y - oy) * prefab.width);
                    } else {
                        let q = i / w;
                        let r = i % w;
                        assert(!(r == x && q == y)) by (nonlinear_arith)
                            requires
                                i == w * q + r,
                                idx as int == x + y * w,
                                i != idx as int,
                        ;
                        assert(map.tiles@[i] == head_tiles[i]);
                    }
                }
            }
            y = y + 1;
        }
        proof {
            if player_spawn is None {
                let pw = prefab.width as int;
                assert forall|pi: int|
                    0 <= pi < prefab.structure.len() && pi % pw < x + 1 - ox && (
                    #[trigger] prefab.structure@[pi]).sprite.glyph
                        == crate::prefab::PLAYER_MARKER_GLYPH implies m0.tiles@[(ox + pi % pw) + (
                oy + pi / pw) * w].sprite == skip.sprite by {
                    vstd::arithmetic::div_mod::lemma_fundamental_div_mod(pi, pw);
                    let q = pi / pw;
                    let rr = pi % pw;
                    assert(q < prefab.height) by (nonlinear_arith)
                        requires
                            pi == pw * q + rr,
                            0 <= rr < pw,
                            0 <= pi,
                            pi < pw * prefab.height,
                    ;
                }
            }
        }
        x = x + 1;
    }
    player_spawn
}

/// The entrance prefab fits the map: it is non-degenerate, leaves room
/// for the randomized horizontal offset of at least 10, and is no taller
/// than the map.
pub open spec fn entrance_fits(prefab: Prefab, m: WorldMap) -> bool {
    &&& prefab.width >= 1
    &&& prefab.height >= 1
    &&& m.width > 10
    &&& prefab.width < m.width - 10
    &&& prefab.height <= m.height
}

/// The entrance prefab fits the fixed generated frame; the same fit that
/// `entrance_fits` checks against a map of the generated dimensions.
pub open spec fn entrance_fits_frame(p: Prefab) -> bool {
    &&& p.width >= 1
    &&& p.height >= 1
    &&& MAP_WIDTH > 10
    &&& p.width < MAP_WIDTH - 10
    &&& p.height <= MAP_HEIGHT
}

/// The carved terrain's top rows hold no stone floor, so no horizontal
/// offset can land the entrance on carved floor.
pub open spec fn terrain_top_rows_clear(edb: EntityDatabase, carved: Seq<bool>, rows: int) -> bool {
    forall|i: int|
        0 <= i < spec_level_terrain(edb, carved).len() && i / (MAP_WIDTH as int) < rows ==> (
        #[trigger] spec_level_terrain(edb, carved)[i]).sprite != spec_named_tile(
            edb,
            "Stone Floor"@,
        ).sprite
}

/// The drawing holds at least one player spawn marker.
pub open spec fn prefab_has_marker(p: Prefab) -> bool {
    exists|i: int|
        0 <= i < p.structure.len() && (#[trigger] p.structure@[i]).sprite.glyph
            == crate::prefab::PLAYER_MARKER_GLYPH
}

/// No cell in the top `rows` rows of the map carries the given sprite.
pub open spec fn top_rows_clear_of(
    m: WorldMap,
    rows: int,
    sprite: crate::actor::CharSprite,
) -> bool {
    forall|i: int|
        0 <= i < m.tiles.len() && i / (m.width as int) < rows ==> (#[trigger] m.tiles@[i]).sprite
            != sprite
}

/// Stamps the entrance prefab near the top edge at a randomized horizontal
/// offset and returns the marked spawn cell, converted to grass floor. A
/// prefab that does not fit the map, or whose spawn marker was lost to
/// already-carved floor, is reported as a missing resource instead of a
/// silent sentinel position. An ill-fitting prefab always fails, before
/// any draw; a marked prefab over a top edge free of carved floor always
/// succeeds, whatever offset is drawn.
pub fn create_entrance(
    map: &mut WorldMap,
    rng: &mut RandomNumberGenerator,
    entrance_prefab: &Prefab,
    edb: &EntityDatabase,
) -> (r: Result<Position, GenerationError>)
    requires
        old(map).wf(),
        entrance_prefab.wf(),
    ensures
        final (map).wf(),
        same_apart_from_tiles(*old(map), *final (map)),
        forall|i: int|
            #![trigger final (map).tiles@[i]]
            0 <= i < final (map).tiles.len() && old(map).tiles@[i].sprite == spec_named_tile(
                *edb,
                "Stone Floor"@,
            ).sprite ==> final (map).tiles@[i] == old(map).tiles@[i],
        r matches Ok(p) ==> {
            &&& final (map).in_bounds(p)
            &&& p.x >= 10
            &&& final (map).tiles@[pos_index(p, final (map).width as int)] == spec_named_tile(
                *edb,
                "Grass Floor"@,
            )
            &&& old(map).tiles@[pos_index(p, final (map).width as int)].sprite != spec_named_tile(
                *edb,
                "Stone Floor"@,
            ).sprite
        },
        r matches Err(e) ==> e == GenerationError::MissingResource,
        !entrance_fits(*entrance_prefab, *old(map)) ==> r is Err && *final (map) == *old(map),
        !prefab_has_marker(*entrance_prefab) ==> r is Err,
        forall|i: int|
            #![trigger final (map).tiles@[i]]
            0 <= i < final (map).tiles.len() && i / (old(map).width as int)
                >= entrance_prefab.height ==> final (map).tiles@[i] == old(map).tiles@[i],
        entrance_fits(*entrance_prefab, *old(map)) && prefab_has_marker(*entrance_prefab)
            && top_rows_clear_of(
            *old(map),
            entrance_prefab.height as int,
            spec_named_tile(*edb, "Stone Floor"@).sprite,
        ) ==> r is Ok,
{
    if entrance_prefab.width < 1 || entrance_prefab.height < 1 || map.width <= 10
        || entrance_prefab.width >= map.width - 10 || entrance_prefab.height > map.height {
        return Err(GenerationError::MissingResource);
    }
    let starting_x = rng_range(rng, 10, map.width - entrance_prefab.width);
    let starting_y: usize = 0;
    let skip = named_tile(edb, "Stone Floor");
    let grass = named_tile(edb, "Grass Floor");
    match stamp_prefab(map, entrance_prefab, starting_x, starting_y, &skip, &grass) {
        Some(player_spawn) => {
            proof {
                // the returned spawn points at a marker cell of the drawing
                let pw = entrance_prefab.width as int;
                let pidx = (player_spawn.x - starting_x) + (player_spawn.y - starting_y) * pw;
                assert(0 <= pidx < entrance_prefab.structure.len()) by (nonlinear_arith)
                    requires
                        pidx == (player_spawn.x - starting_x) + (player_spawn.y - starting_y)
                            * pw,
                        0 <= player_spawn.x - starting_x < pw,
                        0 <= player_spawn.y - starting_y < entrance_prefab.height,
                        entrance_prefab.structure.len() == pw * entrance_prefab.height,
                ;
                assert(entrance_prefab.structure@[pidx].sprite.glyph
                    == crate::prefab::PLAYER_MARKER_GLYPH);
                assert(prefab_has_marker(*entrance_prefab));
            }
            Ok(player_spawn)
        },
        None => {
            proof {
                // with a marked drawing and a clear top edge no offset can
                // lose the marker, so this arm is unreachable then
                if prefab_has_marker(*entrance_prefab) && top_rows_clear_of(
                    *old(map),
                    entrance_prefab.height as int,
                    skip.sprite,
                ) {
                    let w = old(map).width as int;
                    let pw = entrance_prefab.width as int;
                    let pi = choose|pi: int|
                        0 <= pi < entrance_prefab.structure.len() && (
                        #[trigger] entrance_prefab.structure@[pi]).sprite.glyph
                            == crate::prefab::PLAYER_MARKER_GLYPH;
                    vstd::arithmetic::div_mod::lemma_fundamental_div_mod(pi, pw);
                    let px = pi % pw;
                    let py = pi / pw;
                    assert(0 <= py < entrance_prefab.height) by (nonlinear_arith)
                        requires
                            pi == pw * py + px,
                            0 <= px < pw,
                            0 <= pi,
                            pi < pw * entrance_prefab.height,
                    ;
                    let di = (starting_x + px) + py * w;
                    let mh = old(map).height as int;
                    let mlen = old(map).tiles.len() as int;
                    assert(0 <= di < mlen) by (nonlinear_arith)
                        requires
                            di == (starting_x + px) + py * w,
                            0 <= starting_x + px < w,
                            0 <= py < mh,
                            mlen == w * mh,
                    ;
                    assert(di / w == py && (starting_x + px) == di % w) by {
                        vstd::arithmetic::div_mod::lemma_fundamental_div_mod_converse(
                            di,
                            w,
                            py,
                            starting_x + px,
                        );
                    }
                    assert(old(map).tiles@[di].sprite != skip.sprite);
                    assert(old(map).tiles@[(starting_x + px) + (0 + pi / pw) * w].sprite
                        == skip.sprite);
                }
            }
            Err(GenerationError::MissingResource)
        },
    }
}

/// Gets spaced random points by rotating through 4 equal quadrant windows
/// of the map; a pick that lands on a blocking tile is rejected without
/// retrying, so fewer points than asked for may come back.
pub fn get_spaced_points(num_points: u32, map: &WorldMap, rng: &mut RandomNumberGenerator) -> (pts:
    Vec<Position>)
    requires
        map.wf(),
        map.width >= 2,
        map.height >= 2,
    ensures
        pts.len() <= num_points,
        forall|k: int|
            0 <= k < pts.len() ==> map.in_bounds(#[trigger] pts[k]) && !map.tiles[map.pos_idx(
                pts[k],
            )].is_blocking && pts[k].x < 2 * (map.width / 2) && pts[k].y < 2 * (map.height / 2),
{
    let mut spaced_points: Vec<Position> = Vec::new();
    let half_w = map.width / 2;
    let half_h = map.height / 2;
    let mut leftx: usize = 0;
    let mut rightx: usize = half_w;
    let mut topy: usize = 0;
    let mut bottomy: usize = half_h;
    let mut i: u32 = 0;
    while i < num_points
        invariant
            map.wf(),
            half_w == map.width / 2,
            half_h == map.height / 2,
            half_w >= 1,
            half_h >= 1,
            rightx == leftx + half_w,
            bottomy == topy + half_h,
            leftx == 0 || leftx == half_w,
            topy == 0 || topy == half_h,
            i % 4 == 0 ==> leftx == 0 && topy == 0,
            i % 4 == 1 ==> leftx == half_w && topy == 0,
            i % 4 == 2 ==> leftx == half_w && topy == half_h,
            i % 4 == 3 ==> leftx == 0 && topy == half_h,
            i <= num_points,
            spaced_points.len() <= i,
            forall|k: int|
                0 <= k < spaced_points.len() ==> map.in_bounds(#[trigger] spaced_points[k])
                    && !map.tiles[map.pos_idx(spaced_points[k])].is_blocking
                    && spaced_points[k].x < 2 * (map.width / 2) && spaced_points[k].y < 2 * (
                    map.height / 2),
        decreases num_points - i,
    {
        let x = rng_range(rng, leftx, rightx);
        let y = rng_range(rng, topy, bottomy);
        let potential = Position { x, y };
        proof {
            assert(2 * (map.width / 2) <= map.width) by {
                vstd::arithmetic::div_mod::lemma_fundamental_div_mod(map.width as int, 2);
                vstd::arithmetic::div_mod::lemma_mod_bound(map.width as int, 2);
            }
            assert(2 * (map.height / 2) <= map.height) by {
                vstd::arithmetic::div_mod::lemma_fundamental_div_mod(map.height as int, 2);
                vstd::arithmetic::div_mod::lemma_mod_bound(map.height as int, 2);
            }
            assert(map.in_bounds(potential));
            lemma_pos_idx_in_range(*map, potential);
        }
        let idx = map.xy_to_idx(x, y);
        if !map.tiles[idx].is_blocking {
            spaced_points.push(potential);
        }
        match i % 4 {
            0 => {
                leftx = leftx + half_w;
                rightx = rightx + half_w;
            },
            1 => {
                topy = topy + half_h;
                bottomy = bottomy + half_h;
            },
            2 => {
                leftx = leftx - half_w;
                rightx = rightx - half_w;
            },
            3 => {
                topy = topy - half_h;
                bottomy = bottomy - half_h;
            },
            _ => {},
        }
        i = i + 1;
    }
    spaced_points
}

/// Pops the queued entry with the lowest generation number; the earliest
/// queued wins ties, so older growth is processed first. The remaining
/// entries keep their arrival order rather than being left sorted; the
/// sequence of popped entries is the same either way.
pub fn get_priority(vec: &mut Vec<(Position, i32)>) -> (r: Option<(Position, i32)>)
    ensures
        old(vec).len() == 0 ==> r is None && final (vec)@ == old(vec)@,
        old(vec).len() > 0 ==> match r {
            Some(e) => exists|k: int|
                {
                    &&& 0 <= k < old(vec).len()
                    &&& #[trigger] old(vec)@[k] == e
                    &&& final (vec)@ == old(vec)@.remove(k)
                    &&& (forall|j: int| 0 <= j < old(vec).len() ==> (#[trigger] old(vec)@[j]).1 >= e.1)
                    &&& (forall|j: int| 0 <= j < k ==> (#[trigger] old(vec)@[j]).1 > e.1)
                },
            None => false,
        },
{
    if vec.len() == 0 {
        return None;
    }
    let mut best: usize = 0;
    let mut i: usize = 1;
    while i < vec.len()
        invariant
            vec.len() > 0,
            best < i <= vec.len(),
            forall|j: int| 0 <= j < i ==> (#[trigger] vec@[j]).1 >= vec@[best as int].1,
            forall|j: int| 0 <= j < best ==> (#[trigger] vec@[j]).1 > vec@[best as int].1,
        decreases vec.len() - i,
    {
        if vec[i].1 < vec[best].1 {
            best = i;
        }
        i = i + 1;
    }
    let e = vec.remove(best);
    Some(e)
}


/// The minimum number of tiles a room must keep to survive culling.
pub const MIN_ROOM_SIZE: usize = 10;

fn filled_tiles(t: WorldTile, n: usize) -> (v: Vec<WorldTile>)
    ensures
        v.len() == n,
        forall|i: int| 0 <= i < n ==> v[i] == t,
{
    let mut v: Vec<WorldTile> = Vec::new();
    while v.len() < n
        invariant
            v.len() <= n,
            forall|i: int| 0 <= i < v.len() ==> v[i] == t,
        decreases n - v.len(),
    {
        v.push(t);
    }
    v
}

fn filled_bools(n: usize) -> (v: Vec<bool>)
    ensures
        v.len() == n,
        forall|i: int| 0 <= i < n ==> !v@[i],
{
    let mut v: Vec<bool> = Vec::new();
    while v.len() < n
        invariant
            v.len() <= n,
            forall|i: int| 0 <= i < v.len() ==> !v@[i],
        decreases n - v.len(),
    {
        v.push(false);
    }
    v
}

fn filled_beings(n: usize) -> (v: Vec<Option<u64>>)
    ensures
        v.len() == n,
        forall|i: int| 0 <= i < n ==> v@[i] is None,
{
    let mut v: Vec<Option<u64>> = Vec::new();
    while v.len() < n
        invariant
            v.len() <= n,
            forall|i: int| 0 <= i < v.len() ==> v@[i] is None,
        decreases n - v.len(),
    {
        v.push(None);
    }
    v
}

/// Spawns multiple brushes on open ground: from each of a handful of
/// spaced seed points, growth expands to random neighbors with a fixed
/// chance per edge, oldest generation first, until a lifetime budget runs
/// out. Only plain floor tiles are converted, and the protected position
/// (the player spawn) is left alone, so stairs and the spawn survive
/// decoration.
pub fn brush_spawn(
    map: &mut WorldMap,
    rng: &mut RandomNumberGenerator,
    brush: &WorldTile,
    protected: Position,
)
    requires
        old(map).wf(),
        old(map).width == MAP_WIDTH,
        old(map).height == MAP_HEIGHT,
        old(map).in_bounds(protected),
    ensures
        final (map).wf(),
        same_apart_from_tiles(*old(map), *final (map)),
        forall|i: int|
            #![trigger final (map).tiles@[i]]
            0 <= i < final (map).tiles.len() ==> final (map).tiles@[i] == old(map).tiles@[i] || (
            old(map).tiles@[i].tile_type == TileType::Floor && i != pos_index(
                protected,
                old(map).width as int,
            ) && final (map).tiles@[i] == *brush),
{
    let ghost m0 = *old(map);
    let ghost w = m0.width as int;
    let starting_points = get_spaced_points(10, map, rng);
    let mut s: usize = 0;
    while s < starting_points.len()
        invariant
            map.wf(),
            same_apart_from_tiles(m0, *map),
            m0.wf(),
            w == m0.width,
            m0.width == MAP_WIDTH,
            m0.height == MAP_HEIGHT,
            m0.in_bounds(protected),
            s <= starting_points.len(),
            forall|k: int|
                0 <= k < starting_points.len() ==> (#[trigger] starting_points[k]).x < MAP_WIDTH
                    && starting_points[k].y < MAP_HEIGHT,
            forall|i: int|
                #![trigger map.tiles@[i]]
                0 <= i < map.tiles.len() ==> map.tiles@[i] == m0.tiles@[i] || (
                m0.tiles@[i].tile_type == TileType::Floor && i != pos_index(protected, w)
                    && map.tiles@[i] == *brush),
        decreases starting_points.len() - s,
    {
        let point = starting_points[s];
        let mut breeding: Vec<(Position, i32)> = Vec::new();
        breeding.push((point, 0));
        let mut lifetimes: i32 = 1000;
        while breeding.len() > 0
            invariant_except_break
                map.wf(),
                same_apart_from_tiles(m0, *map),
                m0.wf(),
                w == m0.width,
                m0.width == MAP_WIDTH,
                m0.height == MAP_HEIGHT,
                m0.in_bounds(protected),
                1 <= lifetimes <= 1000,
                forall|k: int|
                    0 <= k < breeding.len() ==> (#[trigger] breeding[k]).0.x < MAP_WIDTH
                        && breeding[k].0.y < MAP_HEIGHT && 0 <= breeding[k].1 <= 1001 - lifetimes,
                forall|i: int|
                    #![trigger map.tiles@[i]]
                    0 <= i < map.tiles.len() ==> map.tiles@[i] == m0.tiles@[i] || (
                    m0.tiles@[i].tile_type == TileType::Floor && i != pos_index(protected, w)
                        && map.tiles@[i] == *brush),
            ensures
                map.wf(),
                same_apart_from_tiles(m0, *map),
                forall|i: int|
                    #![trigger map.tiles@[i]]
                    0 <= i < map.tiles.len() ==> map.tiles@[i] == m0.tiles@[i] || (
                    m0.tiles@[i].tile_type == TileType::Floor && i != pos_index(protected, w)
                        && map.tiles@[i] == *brush),
            decreases breeding.len() + 9 * lifetimes,
        {
            let ghost qpre = breeding@;
            let e = get_priority(&mut breeding).unwrap();
            let breeder = e.0;
            let priority = e.1;
            proof {
                assert(exists|k: int| 0 <= k < qpre.len() && #[trigger] qpre[k] == e);
                let k = choose|k: int| 0 <= k < qpre.len() && #[trigger] qpre[k] == e;
                assert(breeder.x < MAP_WIDTH && breeder.y < MAP_HEIGHT);
                assert(0 <= priority <= 1001 - lifetimes);
                lemma_pos_idx_in_range(*map, breeder);
            }
            let idx = map.xy_to_idx(breeder.x, breeder.y);
            let on_plain_floor = match map.tiles[idx].tile_type {
                TileType::Floor => true,
                _ => false,
            };
            if on_plain_floor && !(breeder.x == protected.x && breeder.y == protected.y) {
                proof {
                    if pos_index(breeder, w) == pos_index(protected, w) {
                        lemma_pos_index_injective(breeder, protected, w);
                    }
                    assert(idx as int != pos_index(protected, w));
                    assert(m0.tiles@[idx as int].tile_type == TileType::Floor);
                }
                map.tiles.set(idx, *brush);
                let neighbors = get_neighbors(breeder);
                let mut j: usize = 0;
                while j < neighbors.len()
                    invariant
                        map.wf(),
                        same_apart_from_tiles(m0, *map),
                        m0.wf(),
                        w == m0.width,
                        m0.width == MAP_WIDTH,
                        m0.height == MAP_HEIGHT,
                        m0.in_bounds(protected),
                        1 <= lifetimes <= 1000,
                        j <= neighbors.len(),
                        neighbors.len() <= 9,
                        breeding.len() <= qpre.len() - 1 + j,
                        0 <= priority <= 1001 - lifetimes,
                        forall|k: int|
                            0 <= k < neighbors.len() ==> (#[trigger] neighbors[k]).x < MAP_WIDTH
                                && neighbors[k].y < MAP_HEIGHT,
                        forall|k: int|
                            0 <= k < breeding.len() ==> (#[trigger] breeding[k]).0.x < MAP_WIDTH
                                && breeding[k].0.y < MAP_HEIGHT && 0 <= breeding[k].1 <= 1002
                                - lifetimes,
                        forall|i: int|
                            #![trigger map.tiles@[i]]
                            0 <= i < map.tiles.len() ==> map.tiles@[i] == m0.tiles@[i] || (
                            m0.tiles@[i].tile_type == TileType::Floor && i != pos_index(
                                protected,
                                w,
                            ) && map.tiles@[i] == *brush),
                    decreases neighbors.len() - j,
                {
                    if rng_range(rng, 0, 5) < 2 {
                        breeding.push((neighbors[j], priority + 1));
                    }
                    j = j + 1;
                }
                lifetimes = lifetimes - 1;
                if lifetimes <= 0 {
                    break;
                }
            }
        }
        s = s + 1;
    }
}


/// Every room holds at least the culled minimum of tiles.
pub open spec fn all_rooms_culled_size(rooms: Seq<WorldRoom>) -> bool {
    forall|ri: int| 0 <= ri < rooms.len() ==> (#[trigger] rooms[ri]).tiles.len() >= MIN_ROOM_SIZE
}

/// Some room of the list holds the given position as one of its tiles.
pub open spec fn pos_in_some_room(rooms: Seq<WorldRoom>, p: Position) -> bool {
    exists|ri: int| 0 <= ri < rooms.len() && (#[trigger] rooms[ri]).tiles@.contains(p)
}

/// Some surviving room holds a cell carrying the catalog's down-stairs tile.
pub open spec fn down_stairs_in_some_room(edb: EntityDatabase, m: WorldMap) -> bool {
    exists|i: int|
        0 <= i < m.tiles.len() && idx_in_some_room(m.rooms@, m.width as int, i)
            && #[trigger] m.tiles@[i] == spec_named_tile(edb, "Down Stairs"@)
}

/// The terrain a level's cavern carving produces, as a function of the
/// catalog and the band decisions alone: interior cells inside the band
/// are stone floor, everything else is stone wall.
pub open spec fn spec_level_terrain(edb: EntityDatabase, carved: Seq<bool>) -> Seq<WorldTile> {
    Seq::new(
        (MAP_WIDTH * MAP_HEIGHT) as nat,
        |i: int|
            if 1 <= i % (MAP_WIDTH as int) < MAP_WIDTH - 1 && 1 <= i / (MAP_WIDTH as int)
                < MAP_HEIGHT - 1 && carved[i] {
                spec_named_tile(edb, "Stone Floor"@)
            } else {
                spec_named_tile(edb, "Stone Wall"@)
            },
    )
}

/// A sequence holding distinct positions that all occur in another
/// sequence cannot be the longer of the two.
proof fn lemma_distinct_members_bound(s: Seq<Position>, t: Seq<Position>)
    requires
        s.no_duplicates(),
        forall|k: int| 0 <= k < s.len() ==> t.contains(#[trigger] s[k]),
    ensures
        t.len() >= s.len(),
{
    broadcast use vstd::set::group_set_axioms;

    s.unique_seq_to_set();
    t.lemma_cardinality_of_set();
    assert forall|x: Position| s.to_set().contains(x) implies t.to_set().contains(x) by {
        assert(s.contains(x));
        let k = choose|k: int| 0 <= k < s.len() && s[k] == x;
        assert(t.contains(s[k]));
    }
    assert(s.to_set().subset_of(t.to_set()));
    vstd::set_lib::lemma_len_subset(s.to_set(), t.to_set());
}

/// A body of land worth keeping: at least the culled minimum of distinct
/// in-bounds cells, all floor in the given terrain and mutually connected.
pub open spec fn spec_room_viable_in(
    room: WorldRoom,
    tiles: Seq<WorldTile>,
    width: int,
    height: int,
    floor_sprite: crate::actor::CharSprite,
) -> bool {
    &&& room.tiles.len() >= MIN_ROOM_SIZE
    &&& room.tiles@.no_duplicates()
    &&& room_in_bounds(room, width, height)
    &&& room_all_floor(room, tiles, width, floor_sprite)
    &&& room_connected(room, tiles, width, height, floor_sprite)
}

/// The carved terrain of a level holds at least one body of land of
/// culled size: generation has a viable stair target.
pub open spec fn spec_viable(edb: EntityDatabase, carved: Seq<bool>) -> bool {
    exists|room: WorldRoom|
        #[trigger] spec_room_viable_in(
            room,
            spec_level_terrain(edb, carved),
            MAP_WIDTH as int,
            MAP_HEIGHT as int,
            spec_named_tile(edb, "Stone Floor"@).sprite,
        )
}

/// What a cell of a surviving room may hold in the finished map: its
/// carved stone floor, a staircase placed on it, or decorative brush. The
/// prefab never reaches a room cell, because stamping skips carved floor.
pub open spec fn spec_room_cell_tile(edb: EntityDatabase, t: WorldTile) -> bool {
    ||| t == spec_named_tile(edb, "Stone Floor"@)
    ||| t == spec_named_tile(edb, "Up Stairs"@)
    ||| t == spec_named_tile(edb, "Down Stairs"@)
    ||| t == spec_named_tile(edb, "Lush Brush"@)
}

/// Everything a freshly generated level promises: well-formed parallel
/// sequences with visibility, discovery and occupancy still cleared, only
/// culled-size rooms, disjoint in-bounds rooms that are each a connected
/// and adjacency-closed body of the carved terrain (so a room is exactly
/// the component of land around any of its tiles), an in-bounds spawn on
/// the right terrain for its depth and off the left margin at the
/// surface, and a down-stairs tile inside some surviving room.
pub open spec fn spec_generated_ok(
    edb: EntityDatabase,
    m: WorldMap,
    spawn: Position,
    depth: usize,
    carved: Seq<bool>,
) -> bool {
    &&& m.wf()
    &&& m.width == MAP_WIDTH
    &&& m.height == MAP_HEIGHT
    &&& m.depth == depth
    &&& m.rooms.len() > 0
    &&& all_rooms_culled_size(m.rooms@)
    &&& rooms_in_bounds(m.rooms@, m.width as int, m.height as int)
    &&& rooms_disjoint(m.rooms@, m.width as int)
    &&& (forall|r: int|
        0 <= r < m.rooms.len() ==> room_connected(
            #[trigger] m.rooms@[r],
            spec_level_terrain(edb, carved),
            m.width as int,
            m.height as int,
            spec_named_tile(edb, "Stone Floor"@).sprite,
        ))
    &&& (forall|r: int|
        0 <= r < m.rooms.len() ==> room_floor_closed(
            #[trigger] m.rooms@[r],
            spec_level_terrain(edb, carved),
            m.width as int,
            m.height as int,
            spec_named_tile(edb, "Stone Floor"@).sprite,
        ))
    &&& m.in_bounds(spawn)
    &&& (depth == 0 ==> spawn.x >= 10)
    &&& (forall|i: int| 0 <= i < m.visible.len() ==> !(#[trigger] m.visible@[i]))
    &&& (forall|i: int| 0 <= i < m.discovered.len() ==> !(#[trigger] m.discovered@[i]))
    &&& (forall|i: int| 0 <= i < m.beings.len() ==> (#[trigger] m.beings@[i]) is None)
    &&& (depth > 0 ==> pos_in_some_room(m.rooms@, spawn))
    &&& (depth > 0 ==> m.tiles@[pos_index(spawn, m.width as int)] == spec_named_tile(
        edb,
        "Up Stairs"@,
    ) || m.tiles@[pos_index(spawn, m.width as int)] == spec_named_tile(edb, "Down Stairs"@))
    &&& (depth == 0 ==> m.tiles@[pos_index(spawn, m.width as int)] == spec_named_tile(
        edb,
        "Grass Floor"@,
    ))
    &&& (spec_named_tile(edb, "Down Stairs"@).tile_type != TileType::Floor
        ==> down_stairs_in_some_room(edb, m))
    &&& (spec_named_tile(edb, "Stone Wall"@).sprite != spec_named_tile(edb, "Stone Floor"@).sprite
        ==> (forall|ri: int, k: int|
        #![trigger m.rooms@[ri].tiles@[k]]
        0 <= ri < m.rooms.len() && 0 <= k < m.rooms@[ri].tiles.len() ==> spec_room_cell_tile(
            edb,
            m.tiles@[pos_index(m.rooms@[ri].tiles@[k], m.width as int)],
        )))
}

/// A generated level with its player spawn, or the reason generation
/// failed.
pub type LevelResult = Result<(WorldMap, Position), GenerationError>;

/// Produces a fully furnished, navigable map and a valid player spawn for
/// a `(seed, depth)` pair: a walled level is carved into caverns, rooms
/// are extracted and culled, the entrance prefab or up-stairs and the
/// down-stairs are placed, and decorative brush is grown. `carved` holds
/// the cavern-band decisions sampled from the seeded noise field of the
/// level by the caller; every other choice comes from a generator seeded
/// with `seed` plus the depth, so a level is reproducible.
#[verifier::rlimit(50)]
pub fn generate_map(
    edb: &EntityDatabase,
    entrance: &Prefab,
    carved: &Vec<bool>,
    seed: u64,
    depth: usize,
) -> (r: LevelResult)
    requires
        carved.len() == MAP_WIDTH * MAP_HEIGHT,
        entrance.wf(),
    ensures
        r matches Ok(pair) ==> spec_generated_ok(*edb, pair.0, pair.1, depth, carved@),
        r matches Err(e) ==> (e is NoViableRooms || e is MissingResource && depth == 0),
        (r matches Err(GenerationError::NoViableRooms)) <==> !spec_viable(*edb, carved@),
        depth > 0 ==> (r is Ok <==> spec_viable(*edb, carved@)),
        depth == 0 && spec_viable(*edb, carved@) && !entrance_fits_frame(*entrance) ==> (r matches
            Err(GenerationError::MissingResource)),
        depth == 0 && spec_viable(*edb, carved@) && entrance_fits_frame(*entrance)
            && prefab_has_marker(*entrance) && terrain_top_rows_clear(
            *edb,
            carved@,
            entrance.height as int,
        ) && spec_named_tile(*edb, "Stone Wall"@).sprite != spec_named_tile(
            *edb,
            "Stone Floor"@,
        ).sprite ==> r is Ok,
{
    let width = MAP_WIDTH;
    let height = MAP_HEIGHT;
    let n = MAP_WIDTH * MAP_HEIGHT;
    let wall = named_tile(edb, "Stone Wall");
    let floor = named_tile(edb, "Stone Floor");

    let mut map = WorldMap {
        tiles: filled_tiles(wall, n),
        visible: filled_bools(n),
        discovered: filled_bools(n),
        beings: filled_beings(n),
        rooms: Vec::new(),
        width,
        height,
        depth,
    };
    let ghost w = map.width as int;

    let level_seed = seed.wrapping_add(depth as u64);
    let mut rng = crate::rng::rng_seeded(level_seed);
    create_caverns(&mut map, carved, floor);

    cull_rooms(&mut map, &floor);
    proof {
        assert(map.tiles@ =~= spec_level_terrain(*edb, carved@));
    }
    let ghost rooms_extracted = map.rooms@;
    remove_small_rooms(&mut map, MIN_ROOM_SIZE, wall);
    if map.rooms.len() == 0 {
        proof {
            // no witness body of land can exist: it would sit inside one
            // extracted room, which would then have survived the culling
            if spec_viable(*edb, carved@) {
                let terrain = spec_level_terrain(*edb, carved@);
                let hh = MAP_HEIGHT as int;
                let fs = spec_named_tile(*edb, "Stone Floor"@).sprite;
                let wm = choose|room: WorldRoom|
                    #[trigger] spec_room_viable_in(
                        room,
                        spec_level_terrain(*edb, carved@),
                        MAP_WIDTH as int,
                        MAP_HEIGHT as int,
                        spec_named_tile(*edb, "Stone Floor"@).sprite,
                    );
                let t0 = wm.tiles@[0];
                assert(t0.x < MAP_WIDTH && t0.y < MAP_HEIGHT);
                lemma_pos_index_range(t0, w, hh);
                let i0 = pos_index(t0, w);
                assert(terrain[i0].sprite == fs);
                assert(idx_in_some_room(rooms_extracted, w, i0));
                let rrx = choose|rrx: int|
                    0 <= rrx < rooms_extracted.len() && room_has_idx(
                        #[trigger] rooms_extracted[rrx],
                        w,
                        i0,
                    );
                let kk = choose|kk: int|
                    0 <= kk < rooms_extracted[rrx].tiles.len() && pos_index(
                        #[trigger] rooms_extracted[rrx].tiles[kk],
                        w,
                    ) == i0;
                assert(room_in_bounds(rooms_extracted[rrx], w, hh));
                lemma_pos_index_injective(rooms_extracted[rrx].tiles@[kk], t0, w);
                assert(rooms_extracted[rrx].tiles@.contains(t0));
                assert forall|k: int| 0 <= k < wm.tiles.len() implies rooms_extracted[
                rrx].tiles@.contains(#[trigger] wm.tiles@[k]) by {
                    assert(reachable(terrain, w, hh, fs, t0, wm.tiles@[k]));
                    let n = choose|n: nat| reaches_in(terrain, w, hh, fs, t0, wm.tiles@[k], n);
                    lemma_closed_under_paths(
                        terrain,
                        w,
                        hh,
                        fs,
                        rooms_extracted[rrx],
                        t0,
                        wm.tiles@[k],
                        n,
                    );
                }
                lemma_distinct_members_bound(wm.tiles@, rooms_extracted[rrx].tiles@);
                assert(culled_size_pred(MIN_ROOM_SIZE)(rooms_extracted[rrx]));
                rooms_extracted.filter_lemma(culled_size_pred(MIN_ROOM_SIZE));
                assert(rooms_extracted.filter(culled_size_pred(MIN_ROOM_SIZE)).contains(
                    rooms_extracted[rrx],
                ));
                assert(false);
            }
        }
        return Err(GenerationError::NoViableRooms);
    }
    let ghost rooms_after_cull = map.rooms@;
    let ghost tiles_after_cull = map.tiles@;
    proof {
        // the survivors are extracted rooms, so each is still a connected
        // body of the carved terrain
        assert forall|r: int| 0 <= r < rooms_after_cull.len() implies room_connected(
            #[trigger] rooms_after_cull[r],
            spec_level_terrain(*edb, carved@),
            map.width as int,
            map.height as int,
            floor.sprite,
        ) by {
            assert(room_among(rooms_after_cull[r], rooms_extracted));
            let r0 = choose|r0: int|
                0 <= r0 < rooms_extracted.len() && rooms_after_cull[r] == #[trigger] rooms_extracted[r0];
            assert(room_connected(
                rooms_extracted[r0],
                spec_level_terrain(*edb, carved@),
                map.width as int,
                map.height as int,
                floor.sprite,
            ));
        }
        assert forall|r: int| 0 <= r < rooms_after_cull.len() implies room_floor_closed(
            #[trigger] rooms_after_cull[r],
            spec_level_terrain(*edb, carved@),
            map.width as int,
            map.height as int,
            floor.sprite,
        ) by {
            assert(room_among(rooms_after_cull[r], rooms_extracted));
            let r0 = choose|r0: int|
                0 <= r0 < rooms_extracted.len() && rooms_after_cull[r] == #[trigger] rooms_extracted[r0];
            assert(room_floor_closed(
                rooms_extracted[r0],
                spec_level_terrain(*edb, carved@),
                map.width as int,
                map.height as int,
                floor.sprite,
            ));
        }
    }
    proof {
        // surviving rooms still sit on stone floor: their terrain was kept
        assert forall|ri: int, k: int|
            0 <= ri < map.rooms.len() && 0 <= k < map.rooms@[ri].tiles.len() implies map.tiles@[
        pos_index(#[trigger] map.rooms@[ri].tiles@[k], w)].sprite == floor.sprite by {
            assert(room_among(map.rooms@[ri], rooms_after_cull));
        }
        // the first survivor is itself a viable body of land
        let terrain = spec_level_terrain(*edb, carved@);
        let fs = spec_named_tile(*edb, "Stone Floor"@).sprite;
        let sr = rooms_after_cull[0];
        assert(room_among(sr, rooms_extracted));
        let r0 = choose|r0: int|
            0 <= r0 < rooms_extracted.len() && sr == #[trigger] rooms_extracted[r0];
        assert(sr.tiles@.no_duplicates());
        assert(room_in_bounds(sr, w, MAP_HEIGHT as int));
        assert(room_all_floor(sr, terrain, w, fs));
        assert(room_connected(sr, terrain, w, MAP_HEIGHT as int, fs));
        assert(sr.tiles.len() >= MIN_ROOM_SIZE);
        assert(spec_room_viable_in(sr, terrain, MAP_WIDTH as int, MAP_HEIGHT as int, fs));
        assert(spec_viable(*edb, carved@));
    }

    proof {
        // a clear carved top edge stays clear after culling: walls only
        // ever replace floor there
        if terrain_top_rows_clear(*edb, carved@, entrance.height as int) && spec_named_tile(
            *edb,
            "Stone Wall"@,
        ).sprite != spec_named_tile(*edb, "Stone Floor"@).sprite {
            let terrain = spec_level_terrain(*edb, carved@);
            let fs = spec_named_tile(*edb, "Stone Floor"@).sprite;
            assert forall|i: int|
                0 <= i < map.tiles.len() && i / (map.width as int) < entrance.height as int
                    implies (#[trigger] map.tiles@[i]).sprite != fs by {
                assert(map.tiles@[i] == terrain[i] || map.tiles@[i] == wall);
            }
            assert(top_rows_clear_of(map, entrance.height as int, fs));
        }
    }
    let player_spawn: Position = if map.depth == 0 {
        match create_entrance(&mut map, &mut rng, entrance, edb) {
            Ok(p) => p,
            Err(e) => {
                return Err(e);
            },
        }
    } else {
        place_tile_in_random_room(&mut map, &mut rng, named_tile(edb, "Up Stairs"))
    };

    let ghost tiles_after_spawn = map.tiles@;
    let down_pos = place_tile_in_random_room(&mut map, &mut rng, named_tile(edb, "Down Stairs"));
    proof {
        lemma_pos_idx_in_range(map, player_spawn);
        lemma_pos_idx_in_range(map, down_pos);
    }
    let ghost tiles_after_down = map.tiles@;
    brush_spawn(&mut map, &mut rng, &named_tile(edb, "Lush Brush"), player_spawn);

    proof {
        let wi = map.width as int;
        let sidx = pos_index(player_spawn, wi);
        let didx = pos_index(down_pos, wi);
        assert(map.rooms@ == rooms_after_cull);
        assert(idx_in_some_room(rooms_after_cull, wi, didx));
        if depth == 0 && sidx == didx {
            // the spawn cell was never carved floor, yet every room cell was:
            // the down stairs cannot have landed on the spawn
            let rr = choose|rr: int|
                0 <= rr < rooms_after_cull.len() && room_has_idx(
                    #[trigger] rooms_after_cull[rr],
                    wi,
                    didx,
                );
            let kk = choose|kk: int|
                0 <= kk < rooms_after_cull[rr].tiles.len() && pos_index(
                    #[trigger] rooms_after_cull[rr].tiles[kk],
                    wi,
                ) == didx;
            assert(tiles_after_cull[didx].sprite == spec_named_tile(
                *edb,
                "Stone Floor"@,
            ).sprite);
            assert(false);
        }
        if spec_named_tile(*edb, "Down Stairs"@).tile_type != TileType::Floor {
            assert(map.tiles@[didx] == spec_named_tile(*edb, "Down Stairs"@));
            assert(down_stairs_in_some_room(*edb, map));
        }
        if spec_named_tile(*edb, "Stone Wall"@).sprite != spec_named_tile(
            *edb,
            "Stone Floor"@,
        ).sprite {
            let terrain = spec_level_terrain(*edb, carved@);
            let fsn = spec_named_tile(*edb, "Stone Floor"@);
            // the entrance stamp skips carved floor, each staircase
            // overwrites one cell, brush writes only the brush tile
            assert forall|jj: int|
                0 <= jj < map.tiles.len() && tiles_after_cull[jj] == fsn implies
                tiles_after_spawn[jj] == fsn || tiles_after_spawn[jj] == spec_named_tile(
                *edb,
                "Up Stairs"@,
            ) by {}
            assert forall|jj: int| 0 <= jj < map.tiles.len() implies tiles_after_down[jj]
                == tiles_after_spawn[jj] || tiles_after_down[jj] == spec_named_tile(
                *edb,
                "Down Stairs"@,
            ) by {}
            assert forall|jj: int| 0 <= jj < map.tiles.len() implies map.tiles@[jj]
                == tiles_after_down[jj] || map.tiles@[jj] == spec_named_tile(
                *edb,
                "Lush Brush"@,
            ) by {}
            assert forall|ri: int, k: int|
                #![trigger rooms_after_cull[ri].tiles@[k]]
                0 <= ri < rooms_after_cull.len() && 0 <= k < rooms_after_cull[
            ri].tiles.len() implies spec_room_cell_tile(
                *edb,
                map.tiles@[pos_index(rooms_after_cull[ri].tiles@[k], wi)],
            ) by {
                let pcell = rooms_after_cull[ri].tiles@[k];
                let j = pos_index(pcell, wi);
                assert(room_in_bounds(rooms_after_cull[ri], wi, MAP_HEIGHT as int));
                lemma_pos_index_range(pcell, wi, MAP_HEIGHT as int);
                // after the culling pass the cell is the carved stone floor
                assert(tiles_after_cull[j] == terrain[j]);
                assert(tiles_after_cull[j].sprite == fsn.sprite);
                assert(tiles_after_cull[j] == fsn);
            }
        }
        assert(spec_generated_ok(*edb, map, player_spawn, depth, carved@));
    }
    Ok((map, player_spawn))
}


/// No two cached levels share a depth: the cache is keyed by depth.
pub open spec fn cache_distinct_depths(maps: Seq<WorldMap>) -> bool {
    forall|k1: int, k2: int|
        0 <= k1 < k2 < maps.len() ==> (#[trigger] maps[k1]).depth != (#[trigger] maps[k2]).depth
}

/// Some cached level carries the given depth.
pub open spec fn cache_has_depth(maps: Seq<WorldMap>, d: usize) -> bool {
    exists|k: int| 0 <= k < maps.len() && (#[trigger] maps[k]).depth == d
}

/// The slot of the cached level with the given depth.
pub open spec fn cache_depth_index(maps: Seq<WorldMap>, d: usize) -> int {
    choose|k: int| 0 <= k < maps.len() && (#[trigger] maps[k]).depth == d
}

/// Storing a level in the cache: it replaces the entry of its depth, or is
/// appended when its depth is new.
pub open spec fn spec_store_level(maps: Seq<WorldMap>, m: WorldMap) -> Seq<WorldMap> {
    if cache_has_depth(maps, m.depth) {
        maps.update(cache_depth_index(maps, m.depth), m)
    } else {
        maps.push(m)
    }
}

/// The level holds at least one tile of the given kind.
pub open spec fn map_has_tile_type(m: WorldMap, t: TileType) -> bool {
    exists|i: int| 0 <= i < m.tiles.len() && (#[trigger] m.tiles@[i]).tile_type == t
}

/// The stair tile kind a traveller arrives on: the up staircase when
/// descending and the down staircase otherwise.
pub open spec fn spec_stair_for_travel(old_depth: usize, new_depth: usize) -> TileType {
    if old_depth < new_depth {
        TileType::UpStairs
    } else {
        TileType::DownStairs
    }
}

/// Helper for moving between floors: the player's re-entry position on a
/// cached level is the first tile, in row-major order, of the stair kind
/// matching the direction of travel; None exactly when the level has no
/// such stair.
pub fn find_position_on_stairs(old_depth: usize, new_depth: usize, map: &WorldMap) -> (r: Option<
    Position,
>)
    requires
        map.wf(),
    ensures
        match r {
            Some(p) => {
                &&& map.in_bounds(p)
                &&& map.tiles@[map.pos_idx(p)].tile_type == spec_stair_for_travel(
                    old_depth,
                    new_depth,
                )
                &&& forall|j: int|
                    0 <= j < map.pos_idx(p) ==> (#[trigger] map.tiles@[j]).tile_type
                        != spec_stair_for_travel(old_depth, new_depth)
            },
            None => forall|j: int|
                0 <= j < map.tiles.len() ==> (#[trigger] map.tiles@[j]).tile_type
                    != spec_stair_for_travel(old_depth, new_depth),
        },
{
    if old_depth < new_depth {
        crate::map_scanning::find_tile_from_type(map, old_depth, &TileType::UpStairs)
    } else {
        crate::map_scanning::find_tile_from_type(map, old_depth, &TileType::DownStairs)
    }
}

/// Moves to another floor. The level the player leaves is stored in the
/// cache of generated levels, keyed by its depth; a revisited depth is
/// taken back out of the cache and entered at the stair matching the
/// direction of travel, and a first visit generates the level fresh. A
/// failure leaves the caller on its previous, valid level.
pub fn move_to_new_floor(
    edb: &EntityDatabase,
    entrance: &Prefab,
    carved: &Vec<bool>,
    generated_maps: &mut Vec<WorldMap>,
    current: WorldMap,
    seed: u64,
    new_depth: usize,
) -> (r: LevelResult)
    requires
        current.wf(),
        forall|k: int| 0 <= k < old(generated_maps).len() ==> (#[trigger] old(generated_maps)@[k]).wf(),
        cache_distinct_depths(old(generated_maps)@),
        carved.len() == MAP_WIDTH * MAP_HEIGHT,
        entrance.wf(),
    ensures
        forall|k: int| 0 <= k < final (generated_maps).len() ==> (#[trigger] final (generated_maps)@[k]).wf(),
        cache_distinct_depths(final (generated_maps)@),
        r matches Ok(pair) ==> pair.0.wf() && pair.0.in_bounds(pair.1) && pair.0.depth
            == new_depth,
        r matches Err(e) ==> (e is NoViableRooms || e is MissingResource || e is NoStairs),
        ({
            let stored = spec_store_level(old(generated_maps)@, current);
            &&& (!cache_has_depth(stored, new_depth) ==> {
                &&& final (generated_maps)@ == stored
                &&& (r matches Ok(pair) ==> spec_generated_ok(
                    *edb,
                    pair.0,
                    pair.1,
                    new_depth,
                    carved@,
                ))
                &&& ((r matches Err(GenerationError::NoViableRooms)) <==> !spec_viable(
                    *edb,
                    carved@,
                ))
                &&& (r matches Err(e) ==> (e is NoViableRooms || e is MissingResource
                    && new_depth == 0))
                &&& (new_depth > 0 ==> (r is Ok <==> spec_viable(*edb, carved@)))
            })
            &&& (cache_has_depth(stored, new_depth) ==> {
                let ci = cache_depth_index(stored, new_depth);
                let cached = stored[ci];
                &&& (r matches Ok(pair) ==> {
                    &&& pair.0 == cached
                    &&& final (generated_maps)@ == stored.remove(ci)
                    &&& cached.tiles@[cached.pos_idx(pair.1)].tile_type == spec_stair_for_travel(
                        current.depth,
                        new_depth,
                    )
                    &&& (forall|jj: int|
                        0 <= jj < cached.pos_idx(pair.1) ==> (#[trigger] cached.tiles@[
                        jj]).tile_type != spec_stair_for_travel(current.depth, new_depth))
                })
                &&& ((r matches Err(GenerationError::NoStairs)) <==> !map_has_tile_type(
                    cached,
                    spec_stair_for_travel(current.depth, new_depth),
                ))
                &&& (map_has_tile_type(cached, spec_stair_for_travel(current.depth, new_depth))
                    ==> r is Ok)
                &&& (r is Err ==> final (generated_maps)@ == stored)
            })
        }),
{
    let ghost cache0 = generated_maps@;
    let old_depth = current.depth;
    // update the stored copy of the level the player was previously on
    let mut i: usize = 0;
    let mut found_at: usize = generated_maps.len();
    while i < generated_maps.len()
        invariant
            generated_maps@ == cache0,
            cache_distinct_depths(cache0),
            i <= generated_maps.len(),
            found_at <= generated_maps.len(),
            found_at < generated_maps.len() ==> generated_maps@[found_at as int].depth
                == old_depth,
            found_at == generated_maps.len() ==> (forall|k: int|
                0 <= k < i ==> (#[trigger] generated_maps@[k]).depth != old_depth),
        decreases generated_maps.len() - i,
    {
        if generated_maps[i].depth == old_depth {
            found_at = i;
        }
        i = i + 1;
    }
    if found_at < generated_maps.len() {
        generated_maps.set(found_at, current);
        proof {
            assert(cache_has_depth(cache0, current.depth));
            assert(cache0[cache_depth_index(cache0, current.depth)].depth == current.depth);
            assert(cache_depth_index(cache0, current.depth) == found_at as int);
            assert(generated_maps@ == spec_store_level(cache0, current));
        }
    } else {
        proof {
            if cache_has_depth(cache0, current.depth) {
                let k = cache_depth_index(cache0, current.depth);
                assert(cache0[k].depth == current.depth);
                assert(false);
            }
        }
        generated_maps.push(current);
        proof {
            assert(generated_maps@ == spec_store_level(cache0, current));
        }
    }
    let ghost stored = generated_maps@;
    proof {
        assert(cache_distinct_depths(stored)) by {
            assert forall|k1: int, k2: int|
                0 <= k1 < k2 < stored.len() implies (#[trigger] stored[k1]).depth != (
            #[trigger] stored[k2]).depth by {
                if found_at < cache0.len() {
                    assert(stored == cache0.update(found_at as int, current));
                } else {
                    assert(stored == cache0.push(current));
                }
            }
        }
    }
    // a revisited depth comes back out of the cache
    let mut j: usize = 0;
    while j < generated_maps.len()
        invariant
            generated_maps@ == stored,
            stored == spec_store_level(old(generated_maps)@, current),
            cache_distinct_depths(stored),
            old_depth == current.depth,
            j <= generated_maps.len(),
            forall|k: int|
                0 <= k < generated_maps.len() ==> (#[trigger] generated_maps@[k]).wf(),
            forall|k: int| 0 <= k < j ==> (#[trigger] stored[k]).depth != new_depth,
        decreases generated_maps.len() - j,
    {
        if generated_maps[j].depth == new_depth {
            proof {
                assert(cache_has_depth(stored, new_depth));
                let ci = cache_depth_index(stored, new_depth);
                assert(stored[ci].depth == new_depth);
                assert(ci == j as int);
            }
            let pos = find_position_on_stairs(old_depth, new_depth, &generated_maps[j]);
            match pos {
                Some(p) => {
                    let cached = generated_maps.remove(j);
                    proof {
                        let want = spec_stair_for_travel(current.depth, new_depth);
                        let ci = cache_depth_index(stored, new_depth);
                        crate::map::lemma_pos_idx_in_range(cached, p);
                        assert(stored[ci] == cached);
                        assert(cached.tiles@[cached.pos_idx(p)].tile_type == want);
                        assert(map_has_tile_type(cached, want));
                        assert(generated_maps@ == stored.remove(ci));
                    }
                    return Ok((cached, p));
                },
                None => {
                    proof {
                        let want = spec_stair_for_travel(current.depth, new_depth);
                        let ci = cache_depth_index(stored, new_depth);
                        assert(stored[ci] == stored[j as int]);
                        if map_has_tile_type(stored[ci], want) {
                            let wi = choose|wi: int|
                                0 <= wi < stored[ci].tiles.len() && (#[trigger] stored[
                                ci].tiles@[wi]).tile_type == want;
                            assert(false);
                        }
                    }
                    return Err(GenerationError::NoStairs);
                },
            }
        }
        j = j + 1;
    }
    proof {
        if cache_has_depth(stored, new_depth) {
            let ci = cache_depth_index(stored, new_depth);
            assert(stored[ci].depth == new_depth);
            assert(false);
        }
    }
    generate_map(edb, entrance, carved, seed, new_depth)
}

} // verus!
