//! Level generation: rooms, corridors and the creatures in them.

use crate::fov::abs_int;
use crate::entity::{creature_for_roll, is_blocked, moved_to, occupied_except, Entity};
use crate::geometry::{center_of, in_interior, in_order, rects_intersect, Rect};
use crate::map::{open_tile, wall_tile, Tile, TileMap};
use crate::random::draw_range;
use vstd::prelude::*;

verus! {

/// The smaller of `a` and `b`.
pub open spec fn min_int(a: int, b: int) -> int {
    if a <= b {
        a
    } else {
        b
    }
}

/// The larger of `a` and `b`.
pub open spec fn max_int(a: int, b: int) -> int {
    if a <= b {
        b
    } else {
        a
    }
}

/// `(x, y)` lies on the row `row` between columns `xa` and `xb`, both included.
pub open spec fn on_h_segment(xa: int, xb: int, row: int, x: int, y: int) -> bool {
    y == row && min_int(xa, xb) <= x <= max_int(xa, xb)
}

/// `(x, y)` lies on the column `col` between rows `ya` and `yb`, both included.
pub open spec fn on_v_segment(ya: int, yb: int, col: int, x: int, y: int) -> bool {
    x == col && min_int(ya, yb) <= y <= max_int(ya, yb)
}

/// `(x, y)` lies on the L-shaped corridor from `a` to `b`: along the row of `a`
/// and then the column of `b` when `horizontal_first`, else along the column of
/// `a` and then the row of `b`.
pub open spec fn on_corridor(a: (int, int), b: (int, int), horizontal_first: bool, x: int, y: int) -> bool {
    if horizontal_first {
        on_h_segment(a.0, b.0, a.1, x, y) || on_v_segment(a.1, b.1, b.0, x, y)
    } else {
        on_v_segment(a.1, b.1, a.0, x, y) || on_h_segment(a.0, b.0, b.1, x, y)
    }
}

/// The room lies within the map, with its corner `(x1, y1)` on the map, so
/// that its interior and its center are on the map too.
pub open spec fn room_fits(r: Rect, map: TileMap) -> bool {
    &&& 0 <= r.x1 < map.width
    &&& r.x1 <= r.x2 <= map.width
    &&& 0 <= r.y1 < map.height
    &&& r.y1 <= r.y2 <= map.height
}

/// `new` is `old` with the tiles that satisfy `carved` made open.
pub open spec fn carved_from(new: TileMap, old: TileMap, carved: spec_fn(int, int) -> bool) -> bool {
    &&& new.wf()
    &&& new.width == old.width
    &&& new.height == old.height
    &&& forall|x: int, y: int|
        new.in_bounds(x, y) ==> #[trigger] new.tile(x, y) == (if carved(x, y) {
            open_tile()
        } else {
            old.tile(x, y)
        })
}

/// Opens the interior of `room`.
pub fn create_room(room: Rect, map: &mut TileMap)
    requires
        old(map).wf(),
        room_fits(room, *old(map)),
    ensures
        carved_from(*final(map), *old(map), |x: int, y: int| in_interior(room, x, y)),
{
    let ghost start = *map;
    let mut x: i32 = room.x1 + 1;
    while x < room.x2
        invariant
            room_fits(room, start),
            room.x1 + 1 <= x <= room.x2 || (x == room.x1 + 1 && room.x2 <= room.x1),
            carved_from(
                *map,
                start,
                |i: int, j: int| room.x1 < i < x && room.y1 < j < room.y2,
            ),
        decreases room.x2 - x,
    {
        let mut y: i32 = room.y1 + 1;
        while y < room.y2
            invariant
                room_fits(room, start),
                room.x1 < x < room.x2,
                room.y1 + 1 <= y <= room.y2 || (y == room.y1 + 1 && room.y2 <= room.y1),
                carved_from(
                    *map,
                    start,
                    |i: int, j: int|
                        (room.x1 < i < x && room.y1 < j < room.y2) || (i == x && room.y1 < j < y),
                ),
            decreases room.y2 - y,
        {
            map.set_tile(x, y, Tile::empty());
            y = y + 1;
        }
        x = x + 1;
    }
}

/// Opens row `y` from column `x1` to column `x2`, both included.
pub fn create_h_tunnel(x1: i32, x2: i32, y: i32, map: &mut TileMap)
    requires
        old(map).wf(),
        old(map).in_bounds(x1 as int, y as int),
        old(map).in_bounds(x2 as int, y as int),
    ensures
        carved_from(*final(map), *old(map), |i: int, j: int| on_h_segment(x1 as int, x2 as int, y as int, i, j)),
{
    let ghost start = *map;
    let (lo, hi) = in_order(x1, x2);
    let mut x: i32 = lo;
    while x <= hi
        invariant
            start.in_bounds(lo as int, y as int),
            start.in_bounds(hi as int, y as int),
            lo <= x <= hi + 1,
            lo == min_int(x1 as int, x2 as int),
            hi == max_int(x1 as int, x2 as int),
            carved_from(*map, start, |i: int, j: int| j == y && lo <= i < x),
        decreases hi + 1 - x,
    {
        map.set_tile(x, y, Tile::empty());
        x = x + 1;
    }
}

/// Opens column `x` from row `y1` to row `y2`, both included.
pub fn create_v_tunnel(y1: i32, y2: i32, x: i32, map: &mut TileMap)
    requires
        old(map).wf(),
        old(map).in_bounds(x as int, y1 as int),
        old(map).in_bounds(x as int, y2 as int),
    ensures
        carved_from(*final(map), *old(map), |i: int, j: int| on_v_segment(y1 as int, y2 as int, x as int, i, j)),
{
    let ghost start = *map;
    let (lo, hi) = in_order(y1, y2);
    let mut y: i32 = lo;
    while y <= hi
        invariant
            start.in_bounds(x as int, lo as int),
            start.in_bounds(x as int, hi as int),
            lo <= y <= hi + 1,
            lo == min_int(y1 as int, y2 as int),
            hi == max_int(y1 as int, y2 as int),
            carved_from(*map, start, |i: int, j: int| i == x && lo <= j < y),
        decreases hi + 1 - y,
    {
        map.set_tile(x, y, Tile::empty());
        y = y + 1;
    }
}

} // verus!

verus! {

/// Every tile on the corridor from `a` to `b` in the given orientation is on
/// the map and open.
pub open spec fn corridor_open_along(map: TileMap, a: (int, int), b: (int, int), horizontal_first: bool) -> bool {
    forall|x: int, y: int|
        #[trigger] on_corridor(a, b, horizontal_first, x, y) ==> map.in_bounds(x, y) && !map.tile(
            x,
            y,
        ).blocking
}

/// `new` is `old` with some tiles, perhaps none, made open.
pub open spec fn opened_only(new: TileMap, old: TileMap) -> bool {
    &&& new.wf()
    &&& new.width == old.width
    &&& new.height == old.height
    &&& forall|x: int, y: int|
        new.in_bounds(x, y) ==> (#[trigger] new.tile(x, y) == old.tile(x, y) || new.tile(x, y)
            == open_tile())
}

/// Every tile is a wall or an open tile, and none is explored yet.
pub open spec fn fresh_tiles(map: TileMap) -> bool {
    forall|x: int, y: int|
        map.in_bounds(x, y) ==> (#[trigger] map.tile(x, y) == wall_tile() || map.tile(x, y)
            == open_tile())
}

/// What holds of the map and of the rooms accepted so far: each room fits, no
/// two rooms touch, room interiors are open, and each room is joined to the
/// next by an open corridor between their centers, along the route that
/// `joins` records for it (`true`: along a row first).
pub open spec fn rooms_placed(map: TileMap, rooms: Seq<Rect>, joins: Seq<bool>) -> bool {
    &&& map.wf()
    &&& fresh_tiles(map)
    &&& forall|i: int| 0 <= i < rooms.len() ==> room_fits(#[trigger] rooms[i], map)
    &&& forall|i: int, j: int|
        0 <= i < j < rooms.len() ==> !rects_intersect(#[trigger] rooms[i], #[trigger] rooms[j])
    &&& forall|i: int, x: int, y: int|
        0 <= i < rooms.len() && #[trigger] in_interior(rooms[i], x, y) ==> !map.tile(x, y).blocking
    &&& joins.len() == (if rooms.len() == 0 {
        0
    } else {
        rooms.len() - 1
    })
    &&& forall|i: int|
        0 <= i < rooms.len() - 1 ==> corridor_open_along(
            map,
            center_of(#[trigger] rooms[i]),
            center_of(rooms[i + 1]),
            joins[i],
        )
}

/// `(x, y)` lies in the interior of room `i`, or on the corridor from its
/// center to the center of the next room, along the route `joins` records.
pub open spec fn carved_by(rooms: Seq<Rect>, joins: Seq<bool>, i: int, x: int, y: int) -> bool {
    &&& 0 <= i < rooms.len()
    &&& {
        ||| in_interior(rooms[i], x, y)
        ||| i + 1 < rooms.len() && on_corridor(
            center_of(rooms[i]),
            center_of(rooms[i + 1]),
            joins[i],
            x,
            y,
        )
    }
}

/// Every open tile of the map was opened for a room or a corridor.
pub open spec fn only_carved(map: TileMap, rooms: Seq<Rect>, joins: Seq<bool>) -> bool {
    forall|x: int, y: int|
        map.in_bounds(x, y) && !(#[trigger] map.tile(x, y)).blocking ==> exists|i: int|
            #[trigger] carved_by(rooms, joins, i, x, y)
}

/// Opening tiles keeps every open tile open, so what `rooms_placed` says
/// survives further carving.
proof fn lemma_carving_keeps_rooms(
    old_map: TileMap,
    new_map: TileMap,
    rooms: Seq<Rect>,
    joins: Seq<bool>,
)
    requires
        rooms_placed(old_map, rooms, joins),
        opened_only(new_map, old_map),
    ensures
        rooms_placed(new_map, rooms, joins),
{
    assert forall|x: int, y: int| new_map.in_bounds(x, y) implies (#[trigger] new_map.tile(x, y)
        == wall_tile() || new_map.tile(x, y) == open_tile()) by {
        assert(old_map.in_bounds(x, y));
    }
    assert forall|i: int, x: int, y: int|
        0 <= i < rooms.len() && #[trigger] in_interior(
            rooms[i],
            x,
            y,
        ) implies !new_map.tile(x, y).blocking by {
        assert(room_fits(rooms[i], old_map));
        assert(new_map.in_bounds(x, y));
    }
    assert forall|i: int| 0 <= i < rooms.len() - 1 implies corridor_open_along(
        new_map,
        center_of(#[trigger] rooms[i]),
        center_of(rooms[i + 1]),
        joins[i],
    ) by {
        let a = center_of(rooms[i]);
        let b = center_of(rooms[i + 1]);
        let hf = joins[i];
        assert(corridor_open_along(old_map, a, b, hf));
        assert forall|x: int, y: int| #[trigger] on_corridor(a, b, hf, x, y) implies new_map.in_bounds(
            x,
            y,
        ) && !new_map.tile(x, y).blocking by {
            assert(old_map.in_bounds(x, y));
        }
    }
}

/// The center of a room that fits lies on the map.
proof fn lemma_center_on_map(r: Rect, map: TileMap)
    requires
        room_fits(r, map),
    ensures
        map.in_bounds(center_of(r).0, center_of(r).1),
        r.x1 <= center_of(r).0 <= r.x2,
        r.y1 <= center_of(r).1 <= r.y2,
{
}

/// Accepts `room` unless it touches a room accepted earlier. An accepted room
/// has its interior opened and, unless it is the first, is joined to the last
/// accepted room by a corridor between their centers, carved along a row first
/// when `horizontal_first`, else along a column first.
pub fn add_room(room: Rect, horizontal_first: bool, map: &mut TileMap, rooms: &mut Vec<Rect>) -> (accepted: bool)
    requires
        old(map).wf(),
        room_fits(room, *old(map)),
        forall|i: int| 0 <= i < old(rooms)@.len() ==> room_fits(#[trigger] old(rooms)@[i], *old(map)),
    ensures
        accepted == forall|i: int|
            0 <= i < old(rooms)@.len() ==> !rects_intersect(room, #[trigger] old(rooms)@[i]),
        accepted ==> final(rooms)@ == old(rooms)@.push(room),
        !accepted ==> final(rooms)@ == old(rooms)@ && *final(map) == *old(map),
        accepted && old(rooms)@.len() == 0 ==> carved_from(
            *final(map),
            *old(map),
            |x: int, y: int| in_interior(room, x, y),
        ),
        accepted && old(rooms)@.len() > 0 ==> carved_from(
            *final(map),
            *old(map),
            |x: int, y: int|
                in_interior(room, x, y) || on_corridor(
                    center_of(old(rooms)@.last()),
                    center_of(room),
                    horizontal_first,
                    x,
                    y,
                ),
        ),
        opened_only(*final(map), *old(map)),
        accepted ==> forall|x: int, y: int|
            #[trigger] in_interior(room, x, y) ==> final(map).in_bounds(x, y) && !final(map).tile(
                x,
                y,
            ).blocking,
        accepted && old(rooms)@.len() > 0 ==> corridor_open_along(
            *final(map),
            center_of(old(rooms)@.last()),
            center_of(room),
            horizontal_first,
        ),
        forall|x: int, y: int|
            final(map).in_bounds(x, y) && !(#[trigger] final(map).tile(x, y)).blocking ==> {
                ||| !old(map).tile(x, y).blocking
                ||| accepted && in_interior(room, x, y)
                ||| accepted && old(rooms)@.len() > 0 && on_corridor(
                    center_of(old(rooms)@.last()),
                    center_of(room),
                    horizontal_first,
                    x,
                    y,
                )
            },
{
    let mut i: usize = 0;
    while i < rooms.len()
        invariant
            0 <= i <= rooms@.len(),
            *map == *old(map),
            rooms@ == old(rooms)@,
            map.wf(),
            forall|k: int| 0 <= k < i ==> !rects_intersect(room, #[trigger] rooms@[k]),
        decreases rooms.len() - i,
    {
        if room.intersects_with(&rooms[i]) {
            return false;
        }
        i = i + 1;
    }
    let ghost start = *map;
    create_room(room, map);
    let ghost after_room = *map;
    proof {
        lemma_center_on_map(room, start);
    }
    let (new_x, new_y) = room.center();
    if rooms.len() > 0 {
        let last = rooms.len() - 1;
        proof {
            lemma_center_on_map(rooms@[last as int], start);
        }
        let (prev_x, prev_y) = rooms[last].center();
        let ghost a = center_of(rooms@[last as int]);
        let ghost b = center_of(room);
        if horizontal_first {
            create_h_tunnel(prev_x, new_x, prev_y, map);
            let ghost mid = *map;
            create_v_tunnel(prev_y, new_y, new_x, map);
            assert forall|x: int, y: int| map.in_bounds(x, y) implies #[trigger] map.tile(x, y) == (if in_interior(room, x, y) || on_corridor(a, b, true, x, y) {
                open_tile()
            } else {
                start.tile(x, y)
            }) by {
                assert(mid.tile(x, y) == after_room.tile(x, y) || mid.tile(x, y) == open_tile());
            }
        } else {
            create_v_tunnel(prev_y, new_y, prev_x, map);
            let ghost mid = *map;
            create_h_tunnel(prev_x, new_x, new_y, map);
            assert forall|x: int, y: int| map.in_bounds(x, y) implies #[trigger] map.tile(x, y) == (if in_interior(room, x, y) || on_corridor(a, b, false, x, y) {
                open_tile()
            } else {
                start.tile(x, y)
            }) by {
                assert(mid.tile(x, y) == after_room.tile(x, y) || mid.tile(x, y) == open_tile());
            }
        }
    }
    assert forall|x: int, y: int| map.in_bounds(x, y) implies #[trigger] map.tile(x, y)
        == start.tile(x, y) || map.tile(x, y) == open_tile() by {}
    rooms.push(room);
    true
}

} // verus!

verus! {

/// How many positions are drawn for one creature before it is given up.
pub const PLACEMENT_TRIES: u32 = 20;

/// Entity `i` of `ents` blocks, stands in the interior of `room` on a tile
/// that does not block, and no blocking entity before it stands there.
pub open spec fn placed_in(map: TileMap, ents: Seq<Entity>, i: int, room: Rect) -> bool {
    &&& ents[i].blocking
    &&& in_interior(room, ents[i].x as int, ents[i].y as int)
    &&& !map.tile(ents[i].x as int, ents[i].y as int).blocking
    &&& !occupied_except(ents.take(i), i, ents[i].x as int, ents[i].y as int)
}

/// `(x, y)` is an interior tile of `room`, on the map, that does not block
/// and that no blocking entity of `ents` stands on.
pub open spec fn free_spot(map: TileMap, ents: Seq<Entity>, room: Rect, x: int, y: int) -> bool {
    &&& in_interior(room, x, y)
    &&& map.in_bounds(x, y)
    &&& !map.tile(x, y).blocking
    &&& !occupied_except(ents, ents.len() as int, x, y)
}

/// Some interior tile of `room` is free for a creature.
pub open spec fn has_free_spot(map: TileMap, ents: Seq<Entity>, room: Rect) -> bool {
    exists|x: int, y: int| #[trigger] free_spot(map, ents, room, x, y)
}

/// The first free interior tile of `room`, column by column, if any.
pub fn find_free_spot(room: Rect, map: &TileMap, entities: &Vec<Entity>) -> (r: Option<(i32, i32)>)
    requires
        map.wf(),
        room_fits(room, *map),
    ensures
        r matches Some((x, y)) ==> free_spot(*map, entities@, room, x as int, y as int),
        r is None ==> !has_free_spot(*map, entities@, room),
{
    let mut x: i32 = room.x1 + 1;
    while x < room.x2
        invariant
            map.wf(),
            room_fits(room, *map),
            room.x1 < x,
            forall|i: int, j: int|
                room.x1 < i < x ==> !#[trigger] free_spot(*map, entities@, room, i, j),
        decreases room.x2 - x,
    {
        let mut y: i32 = room.y1 + 1;
        while y < room.y2
            invariant
                map.wf(),
                room_fits(room, *map),
                room.x1 < x < room.x2,
                room.y1 < y,
                forall|i: int, j: int|
                    room.x1 < i < x ==> !#[trigger] free_spot(*map, entities@, room, i, j),
                forall|j: int| room.y1 < j < y ==> !#[trigger] free_spot(*map, entities@, room, x as int, j),
            decreases room.y2 - y,
        {
            if !is_blocked(x, y, map, entities) {
                return Some((x, y));
            }
            y = y + 1;
        }
        assert forall|i: int, j: int| room.x1 < i < x + 1 implies !#[trigger] free_spot(
            *map,
            entities@,
            room,
            i,
            j,
        ) by {
            if i == x && room.y1 < j < room.y2 {
                assert(!free_spot(*map, entities@, room, x as int, j));
            }
        }
        x = x + 1;
    }
    None
}

/// Appends the creature that `roll` picks at the free spot `(x, y)`.
fn add_creature(room: Rect, map: &TileMap, entities: &mut Vec<Entity>, x: i32, y: i32, roll: i32)
    requires
        free_spot(*map, old(entities)@, room, x as int, y as int),
    ensures
        final(entities)@.len() == old(entities)@.len() + 1,
        final(entities)@.take(old(entities)@.len() as int) == old(entities)@,
        placed_in(*map, final(entities)@, old(entities)@.len() as int, room),
        forall|i: int|
            0 <= i < old(entities)@.len() && #[trigger] placed_in(*map, old(entities)@, i, room)
                ==> placed_in(*map, final(entities)@, i, room),
{
    let ghost before = entities@;
    entities.push(creature_for_roll(roll, x, y));
    assert(entities@.take(before.len() as int) =~= before);
    assert forall|i: int|
        0 <= i < before.len() && #[trigger] placed_in(*map, before, i, room) implies placed_in(
        *map,
        entities@,
        i,
        room,
    ) by {
        assert(entities@.take(i) =~= before.take(i));
    }
}

/// Adds one to three creatures at free positions of the interior of `room`.
/// Each position is drawn at random; after a few failed draws the interior is
/// searched in order, and the creatures still to come are given up only when
/// no free position is left. So at least one creature is placed exactly when
/// the room has a free interior tile.
pub fn place_entities(room: Rect, map: &TileMap, entities: &mut Vec<Entity>, rng: &mut rand::rngs::StdRng)
    requires
        map.wf(),
        room_fits(room, *map),
    ensures
        old(entities)@.len() <= final(entities)@.len() <= old(entities)@.len() + 3,
        final(entities)@.take(old(entities)@.len() as int) == old(entities)@,
        forall|i: int|
            old(entities)@.len() <= i < final(entities)@.len() ==> #[trigger] placed_in(
                *map,
                final(entities)@,
                i,
                room,
            ),
        final(entities)@.len() > old(entities)@.len() <==> has_free_spot(*map, old(entities)@, room),
{
    let ghost start = entities@;
    if room.x1 + 1 >= room.x2 || room.y1 + 1 >= room.y2 {
        assert(entities@.take(start.len() as int) =~= start);
        assert(!has_free_spot(*map, start, room));
        return;
    }
    let num_creatures = draw_range(rng, 1, 4);
    let mut n: i32 = 0;
    let mut full = false;
    while n < num_creatures && !full
        invariant
            map.wf(),
            room_fits(room, *map),
            room.x1 + 1 < room.x2,
            room.y1 + 1 < room.y2,
            0 <= n <= num_creatures <= 3,
            start.len() <= entities@.len() <= start.len() + n,
            entities@.take(start.len() as int) == start,
            forall|i: int|
                start.len() <= i < entities@.len() ==> #[trigger] placed_in(*map, entities@, i, room),
            n == 0 ==> entities@ == start,
            full ==> n > 0,
            (n > 0 && has_free_spot(*map, start, room)) ==> entities@.len() > start.len(),
        decreases num_creatures - n,
    {
        let mut tries: u32 = 0;
        let mut placed = false;
        while tries < PLACEMENT_TRIES && !placed
            invariant
                map.wf(),
                room_fits(room, *map),
                room.x1 + 1 < room.x2,
                room.y1 + 1 < room.y2,
                0 <= n < num_creatures <= 3,
                start.len() <= entities@.len() <= start.len() + n + (if placed { 1int } else { 0 }),
                entities@.take(start.len() as int) == start,
                forall|i: int|
                    start.len() <= i < entities@.len() ==> #[trigger] placed_in(*map, entities@, i, room),
                !placed && n == 0 ==> entities@ == start,
                placed ==> entities@.len() > start.len(),
                (!placed && n > 0 && has_free_spot(*map, start, room)) ==> entities@.len() > start.len(),
            decreases PLACEMENT_TRIES - tries, (if placed { 0int } else { 1 }),
        {
            let x = draw_range(rng, room.x1 + 1, room.x2);
            let y = draw_range(rng, room.y1 + 1, room.y2);
            if !is_blocked(x, y, map, entities) {
                let roll = draw_range(rng, 0, 100);
                let ghost before = entities@;
                add_creature(room, map, entities, x, y, roll);
                proof {
                    assert(entities@.take(start.len() as int) =~= start) by {
                        assert(before.take(start.len() as int) == start);
                        assert(entities@.take(before.len() as int) == before);
                    }
                    assert forall|i: int| start.len() <= i < entities@.len() implies #[trigger] placed_in(
                        *map,
                        entities@,
                        i,
                        room,
                    ) by {
                        if i < before.len() {
                            assert(placed_in(*map, before, i, room));
                        }
                    }
                }
                placed = true;
            } else {
                tries = tries + 1;
            }
        }
        if !placed {
            match find_free_spot(room, map, entities) {
                Some((x, y)) => {
                    let roll = draw_range(rng, 0, 100);
                    let ghost before = entities@;
                    add_creature(room, map, entities, x, y, roll);
                    proof {
                        assert(entities@.take(start.len() as int) =~= start) by {
                            assert(before.take(start.len() as int) == start);
                            assert(entities@.take(before.len() as int) == before);
                        }
                        assert forall|i: int| start.len() <= i < entities@.len() implies #[trigger] placed_in(
                            *map,
                            entities@,
                            i,
                            room,
                        ) by {
                            if i < before.len() {
                                assert(placed_in(*map, before, i, room));
                            }
                        }
                    }
                },
                None => {
                    proof {
                        if entities@.len() == start.len() {
                            assert(entities@ =~= entities@.take(start.len() as int));
                        }
                    }
                    full = true;
                },
            }
        }
        n = n + 1;
    }
    proof {
        assert(n > 0);
        if entities@.len() > start.len() {
            let i = start.len() as int;
            assert(placed_in(*map, entities@, i, room));
            assert(entities@.take(i) == start);
            assert(free_spot(*map, start, room, entities@[i].x as int, entities@[i].y as int));
        }
    }
}

} // verus!

verus! {

/// The parameters of a level: its size, the range of room sizes, and how many
/// candidate rooms are drawn.
#[derive(Clone, Copy, Debug, PartialEq, Eq, Structural)]
pub struct MapConfig {
    pub width: i32,
    pub height: i32,
    pub room_min: i32,
    pub room_max: i32,
    pub max_rooms: i32,
}

impl MapConfig {
    /// Room sizes are non-negative, ordered, and smaller than both sides of the map.
    pub open spec fn valid(&self) -> bool {
        &&& 0 <= self.room_min <= self.room_max
        &&& self.room_max < self.width
        &&& self.room_max < self.height
    }
}

/// A generated level: its map, the rooms accepted in order, the route of the
/// corridor from each room to the next (`true`: along a row first), and for
/// each room the index in the entity list of its first creature.
pub struct Dungeon {
    pub map: TileMap,
    pub rooms: Vec<Rect>,
    pub joins: Vec<bool>,
    pub first_creature: Vec<usize>,
}

/// Why no level came out.
#[derive(Clone, Copy, Debug, PartialEq, Eq, Structural)]
pub enum GenError {
    /// No candidate room was drawn, so the map is all walls.
    NoRoomAccepted,
}

/// Room `r` has a width and a height in the configured range.
pub open spec fn sized_by(r: Rect, cfg: MapConfig) -> bool {
    &&& cfg.room_min <= r.x2 - r.x1 <= cfg.room_max
    &&& cfg.room_min <= r.y2 - r.y1 <= cfg.room_max
}

/// One past the index of the last creature of room `k`.
pub open spec fn creatures_end(first: Seq<usize>, k: int, total: int) -> int {
    if k + 1 < first.len() {
        first[k + 1] as int
    } else {
        total
    }
}

/// The entities from index `start_len` on are the creatures of the rooms, in
/// the order of the rooms: room `k` has those from `first[k]` up to
/// `creatures_end`, no more than three, each placed in it as `placed_in` says,
/// and at least one when, as it was filled, it had a free interior tile.
pub open spec fn creatures_by_room(
    map: TileMap,
    rooms: Seq<Rect>,
    first: Seq<usize>,
    start_len: int,
    ents: Seq<Entity>,
) -> bool {
    &&& first.len() == rooms.len()
    &&& start_len <= ents.len()
    &&& rooms.len() == 0 ==> ents.len() == start_len
    &&& rooms.len() > 0 ==> first[0] == start_len
    &&& forall|k: int|
        0 <= k < rooms.len() ==> first[k] <= #[trigger] creatures_end(first, k, ents.len() as int)
            <= first[k] + 3 && creatures_end(first, k, ents.len() as int) <= ents.len()
    &&& forall|k: int, i: int|
        0 <= k < rooms.len() && first[k] <= i < creatures_end(first, k, ents.len() as int)
            ==> #[trigger] placed_in(map, ents, i, rooms[k])
    &&& forall|k: int|
        0 <= k < rooms.len() && #[trigger] has_free_spot(map, ents.take(first[k] as int), rooms[k])
            ==> creatures_end(first, k, ents.len() as int) > first[k]
}

/// What generation leaves behind: the map and rooms as `rooms_placed` says,
/// no tile opened but for a room or its corridor, the player (entity 0) at
/// the center of the first room, the other entities given kept, and the new
/// ones the creatures of the rooms as `creatures_by_room` says.
pub open spec fn level_generated(cfg: MapConfig, d: Dungeon, before: Seq<Entity>, after: Seq<Entity>) -> bool {
    let rooms = d.rooms@;
    &&& d.map.width == cfg.width
    &&& d.map.height == cfg.height
    &&& rooms_placed(d.map, rooms, d.joins@)
    &&& only_carved(d.map, rooms, d.joins@)
    &&& 1 <= rooms.len() <= cfg.max_rooms
    &&& forall|k: int| 0 <= k < rooms.len() ==> sized_by(#[trigger] rooms[k], cfg)
    &&& moved_to(before[0], after[0], center_of(rooms[0]).0, center_of(rooms[0]).1)
    &&& forall|i: int| 1 <= i < before.len() ==> after[i] == before[i]
    &&& creatures_by_room(d.map, rooms, d.first_creature@, before.len() as int, after)
}

/// Opening tiles keeps every creature on an open tile, and a room that has a
/// free interior tile after had it before, since room interiors were open.
proof fn lemma_carving_keeps_creatures(
    old_map: TileMap,
    new_map: TileMap,
    rooms: Seq<Rect>,
    joins: Seq<bool>,
    first: Seq<usize>,
    start_len: int,
    ents: Seq<Entity>,
)
    requires
        rooms_placed(old_map, rooms, joins),
        opened_only(new_map, old_map),
        creatures_by_room(old_map, rooms, first, start_len, ents),
    ensures
        creatures_by_room(new_map, rooms, first, start_len, ents),
{
    assert forall|k: int, i: int|
        0 <= k < rooms.len() && first[k] <= i < creatures_end(first, k, ents.len() as int)
            implies #[trigger] placed_in(new_map, ents, i, rooms[k]) by {
        assert(placed_in(old_map, ents, i, rooms[k]));
        assert(room_fits(rooms[k], old_map));
    }
    assert forall|k: int|
        0 <= k < rooms.len() && #[trigger] has_free_spot(new_map, ents.take(first[k] as int), rooms[k])
            implies creatures_end(first, k, ents.len() as int) > first[k] by {
        let es = ents.take(first[k] as int);
        let (x, y) = choose|x: int, y: int| #[trigger] free_spot(new_map, es, rooms[k], x, y);
        assert(in_interior(rooms[k], x, y));
        assert(free_spot(old_map, es, rooms[k], x, y));
        assert(has_free_spot(old_map, es, rooms[k]));
    }
}

/// Filling one more room with creatures, as `place_entities` does, keeps
/// what `creatures_by_room` says.
proof fn lemma_room_filled(
    map: TileMap,
    rooms: Seq<Rect>,
    first: Seq<usize>,
    start_len: int,
    old_ents: Seq<Entity>,
    new_ents: Seq<Entity>,
    room: Rect,
    next: usize,
)
    requires
        creatures_by_room(map, rooms, first, start_len, old_ents),
        next == old_ents.len(),
        old_ents.len() <= new_ents.len() <= old_ents.len() + 3,
        new_ents.take(old_ents.len() as int) == old_ents,
        forall|i: int| old_ents.len() <= i < new_ents.len() ==> #[trigger] placed_in(map, new_ents, i, room),
        new_ents.len() > old_ents.len() <==> has_free_spot(map, old_ents, room),
    ensures
        creatures_by_room(
            map,
            rooms.push(room),
            first.push(next),
            start_len,
            new_ents,
        ),
{
    let rs = rooms.push(room);
    let fs = first.push(next);
    let n0 = old_ents.len() as int;
    assert(fs[rooms.len() as int] == n0);
    assert forall|k: int| 0 <= k < rooms.len() implies creatures_end(fs, k, new_ents.len() as int)
        == creatures_end(first, k, n0) && fs[k] == first[k] by {
        if k + 1 < rooms.len() {
            assert(fs[k + 1] == first[k + 1]);
        }
    }
    assert forall|k: int|
        0 <= k < rs.len() implies fs[k] <= #[trigger] creatures_end(fs, k, new_ents.len() as int)
        <= fs[k] + 3 && creatures_end(fs, k, new_ents.len() as int) <= new_ents.len() by {
        if k < rooms.len() {
            assert(creatures_end(first, k, n0) <= n0);
        }
    }
    assert forall|k: int, i: int|
        0 <= k < rs.len() && fs[k] <= i < creatures_end(fs, k, new_ents.len() as int)
            implies #[trigger] placed_in(map, new_ents, i, rs[k]) by {
        if k < rooms.len() {
            assert(placed_in(map, old_ents, i, rooms[k]));
            assert(new_ents.take(n0)[i] == old_ents[i]);
            assert(new_ents.take(i) =~= old_ents.take(i)) by {
                assert forall|j: int| 0 <= j < i implies new_ents.take(i)[j] == old_ents.take(i)[j] by {
                    assert(new_ents.take(n0)[j] == old_ents[j]);
                }
            }
            assert(rs[k] == rooms[k]);
        }
    }
    assert forall|k: int|
        0 <= k < rs.len() && #[trigger] has_free_spot(map, new_ents.take(fs[k] as int), rs[k])
            implies creatures_end(fs, k, new_ents.len() as int) > fs[k] by {
        if k < rooms.len() {
            assert(new_ents.take(fs[k] as int) =~= old_ents.take(first[k] as int)) by {
                assert forall|j: int| 0 <= j < fs[k] implies new_ents.take(fs[k] as int)[j]
                    == old_ents.take(first[k] as int)[j] by {
                    assert(new_ents.take(n0)[j] == old_ents[j]);
                }
            }
            assert(rs[k] == rooms[k]);
            assert(has_free_spot(map, old_ents.take(first[k] as int), rooms[k]));
        } else {
            assert(new_ents.take(n0) == old_ents);
        }
    }
}

/// Moving the player before any creature is placed keeps what
/// `creatures_by_room` says of no rooms.
proof fn lemma_no_rooms_no_creatures(map: TileMap, start_len: int, ents: Seq<Entity>)
    requires
        ents.len() == start_len,
    ensures
        creatures_by_room(map, Seq::empty(), Seq::empty(), start_len, ents),
{
}

/// Builds a level: draws `max_rooms` candidate rooms, keeps those that touch
/// no room kept before, joins each kept room to the previous one by a
/// corridor, moves the player (entity 0) to the center of the first room, and
/// scatters creatures in every kept room.
pub fn make_map(cfg: MapConfig, entities: &mut Vec<Entity>, rng: &mut rand::rngs::StdRng) -> (r:
    Result<Dungeon, GenError>)
    requires
        cfg.valid(),
        old(entities)@.len() >= 1,
    ensures
        r is Err <==> cfg.max_rooms <= 0,
        r is Err ==> final(entities)@ == old(entities)@,
        r matches Ok(d) ==> level_generated(cfg, d, old(entities)@, final(entities)@),
{
    let ghost start = entities@;
    let mut map = TileMap::new(cfg.width, cfg.height);
    let mut rooms: Vec<Rect> = Vec::new();
    let mut joins: Vec<bool> = Vec::new();
    let mut first_creature: Vec<usize> = Vec::new();
    let mut k: i32 = 0;
    while k < cfg.max_rooms
        invariant
            cfg.valid(),
            0 <= k,
            k <= cfg.max_rooms || k == 0,
            map.width == cfg.width,
            map.height == cfg.height,
            rooms_placed(map, rooms@, joins@),
            only_carved(map, rooms@, joins@),
            rooms@.len() <= k,
            k > 0 ==> rooms@.len() > 0,
            forall|j: int| 0 <= j < rooms@.len() ==> sized_by(#[trigger] rooms@[j], cfg),
            start.len() >= 1,
            rooms@.len() == 0 ==> entities@ == start,
            rooms@.len() > 0 ==> moved_to(start[0], entities@[0], center_of(rooms@[0]).0, center_of(rooms@[0]).1),
            forall|i: int| 1 <= i < start.len() ==> entities@[i] == start[i],
            creatures_by_room(map, rooms@, first_creature@, start.len() as int, entities@),
        decreases cfg.max_rooms - k,
    {
        let w = draw_range(rng, cfg.room_min, cfg.room_max + 1);
        let h = draw_range(rng, cfg.room_min, cfg.room_max + 1);
        let x = draw_range(rng, 0, cfg.width - w);
        let y = draw_range(rng, 0, cfg.height - h);
        let new_room = Rect::new(x, y, w, h);
        let horizontal_first = draw_range(rng, 0, 2) == 0;
        let ghost map0 = map;
        let ghost rooms0 = rooms@;
        let ghost joins0 = joins@;
        let accepted = add_room(new_room, horizontal_first, &mut map, &mut rooms);
        if accepted && rooms.len() > 1 {
            joins.push(horizontal_first);
        }
        proof {
            lemma_carving_keeps_rooms(map0, map, rooms0, joins0);
            lemma_carving_keeps_creatures(map0, map, rooms0, joins0, first_creature@, start.len() as int, entities@);
            if accepted {
                assert(joins@ == joined(joins0, rooms0.len(), horizontal_first));
                lemma_accept_keeps_rooms(map0, map, rooms0, joins0, new_room, horizontal_first);
                assert forall|x: int, y: int|
                    map.in_bounds(x, y) && !(#[trigger] map.tile(x, y)).blocking implies exists|i: int|
                        #[trigger] carved_by(rooms@, joins@, i, x, y) by {
                    if !map0.tile(x, y).blocking {
                        let i = choose|i: int| #[trigger] carved_by(rooms0, joins0, i, x, y);
                        assert(rooms@[i] == rooms0[i]);
                        if i + 1 < rooms0.len() {
                            assert(rooms@[i + 1] == rooms0[i + 1]);
                            assert(joins@[i] == joins0[i]);
                        }
                        assert(carved_by(rooms@, joins@, i, x, y));
                    } else if in_interior(new_room, x, y) {
                        assert(carved_by(rooms@, joins@, rooms0.len() as int, x, y));
                    } else {
                        let i = rooms0.len() - 1;
                        assert(rooms@[i] == rooms0.last());
                        assert(joins@[i] == horizontal_first);
                        assert(carved_by(rooms@, joins@, i, x, y));
                    }
                }
            }
        }
        if accepted {
            if rooms.len() == 1 {
                proof {
                    lemma_center_on_map(new_room, map);
                }
                let (cx, cy) = new_room.center();
                entities[0].set_pos(cx, cy);
                proof {
                    lemma_no_rooms_no_creatures(map, start.len() as int, entities@);
                }
            }
            let ghost ents0 = entities@;
            let ghost fc0 = first_creature@;
            let next = entities.len();
            first_creature.push(next);
            place_entities(new_room, &map, entities, rng);
            proof {
                if rooms0.len() == 0 {
                    assert(rooms0 =~= Seq::<Rect>::empty());
                    assert(fc0 =~= Seq::<usize>::empty());
                }
                lemma_room_filled(map, rooms0, fc0, start.len() as int, ents0, entities@, new_room, next);
                let n0 = ents0.len() as int;
                assert forall|i: int| 1 <= i < start.len() implies entities@[i] == start[i] by {
                    assert(entities@.take(n0)[i] == ents0[i]);
                }
                assert(entities@.take(n0)[0] == ents0[0]);
            }
        }
        k = k + 1;
    }
    if rooms.len() == 0 {
        return Err(GenError::NoRoomAccepted);
    }
    Ok(Dungeon { map, rooms, joins, first_creature })
}

/// The routes after a room is accepted when `n` rooms were: the first room
/// has no corridor, every later one adds the route of its own.
pub open spec fn joined(joins: Seq<bool>, n: nat, horizontal_first: bool) -> Seq<bool> {
    if n == 0 {
        joins
    } else {
        joins.push(horizontal_first)
    }
}

/// Accepting a room that touches no earlier room, with its interior and its
/// corridor open, keeps what `rooms_placed` says.
proof fn lemma_accept_keeps_rooms(
    old_map: TileMap,
    new_map: TileMap,
    rooms: Seq<Rect>,
    joins: Seq<bool>,
    room: Rect,
    horizontal_first: bool,
)
    requires
        rooms_placed(old_map, rooms, joins),
        rooms_placed(new_map, rooms, joins),
        opened_only(new_map, old_map),
        room_fits(room, old_map),
        forall|i: int| 0 <= i < rooms.len() ==> !rects_intersect(room, #[trigger] rooms[i]),
        forall|x: int, y: int|
            #[trigger] in_interior(room, x, y) ==> new_map.in_bounds(x, y) && !new_map.tile(
                x,
                y,
            ).blocking,
        rooms.len() > 0 ==> corridor_open_along(
            new_map,
            center_of(rooms.last()),
            center_of(room),
            horizontal_first,
        ),
    ensures
        rooms_placed(new_map, rooms.push(room), joined(joins, rooms.len(), horizontal_first)),
{
    let all = rooms.push(room);
    let js = joined(joins, rooms.len(), horizontal_first);
    assert forall|i: int, j: int| 0 <= i < j < all.len() implies !rects_intersect(
        #[trigger] all[i],
        #[trigger] all[j],
    ) by {
        if j == rooms.len() {
            assert(!rects_intersect(room, rooms[i]));
        } else {
            assert(all[i] == rooms[i] && all[j] == rooms[j]);
        }
    }
    assert forall|i: int| 0 <= i < all.len() - 1 implies corridor_open_along(
        new_map,
        center_of(#[trigger] all[i]),
        center_of(all[i + 1]),
        js[i],
    ) by {
        if i == rooms.len() - 1 {
            assert(js[i] == horizontal_first);
        } else {
            assert(all[i] == rooms[i] && all[i + 1] == rooms[i + 1]);
            assert(js[i] == joins[i]);
        }
    }
    assert forall|i: int, x: int, y: int|
        0 <= i < all.len() && #[trigger] in_interior(all[i], x, y) implies !new_map.tile(x, y).blocking by {
        if i < rooms.len() {
            assert(all[i] == rooms[i]);
        }
    }
    assert forall|i: int| 0 <= i < all.len() implies room_fits(#[trigger] all[i], new_map) by {
        if i < rooms.len() {
            assert(all[i] == rooms[i]);
        }
    }
}

} // verus!

verus! {

/// `path` walks from `a` to `b` over open tiles of the map, each step going
/// to a tile next to the last one along a row or a column.
pub open spec fn open_walk(map: TileMap, path: Seq<(int, int)>, a: (int, int), b: (int, int)) -> bool {
    &&& path.len() > 0
    &&& path[0] == a
    &&& path.last() == b
    &&& forall|i: int|
        0 <= i < path.len() ==> map.in_bounds((#[trigger] path[i]).0, path[i].1) && !map.tile(
            path[i].0,
            path[i].1,
        ).blocking
    &&& forall|i: int|
        0 <= i < path.len() - 1 ==> abs_int((#[trigger] path[i]).0 - path[i + 1].0) + abs_int(
            path[i].1 - path[i + 1].1,
        ) == 1
}

/// `k` steps from `from` in the direction of `to`.
pub open spec fn toward(from: int, to: int, k: int) -> int {
    if from <= to {
        from + k
    } else {
        from - k
    }
}

/// The tiles of the corridor from `a` to `b`, in walking order.
pub open spec fn corridor_walk(a: (int, int), b: (int, int), horizontal_first: bool) -> Seq<(int, int)> {
    let dx = abs_int(b.0 - a.0);
    let dy = abs_int(b.1 - a.1);
    if horizontal_first {
        Seq::new(
            (dx + dy + 1) as nat,
            |k: int|
                if k <= dx {
                    (toward(a.0, b.0, k), a.1)
                } else {
                    (b.0, toward(a.1, b.1, k - dx))
                },
        )
    } else {
        Seq::new(
            (dx + dy + 1) as nat,
            |k: int|
                if k <= dy {
                    (a.0, toward(a.1, b.1, k))
                } else {
                    (toward(a.0, b.0, k - dy), b.1)
                },
        )
    }
}

/// An open corridor is a walk of open tiles from one end to the other.
pub proof fn lemma_corridor_walk(map: TileMap, a: (int, int), b: (int, int), horizontal_first: bool)
    requires
        corridor_open_along(map, a, b, horizontal_first),
    ensures
        open_walk(map, corridor_walk(a, b, horizontal_first), a, b),
{
    let p = corridor_walk(a, b, horizontal_first);
    assert forall|i: int| 0 <= i < p.len() implies map.in_bounds((#[trigger] p[i]).0, p[i].1)
        && !map.tile(p[i].0, p[i].1).blocking by {
        assert(on_corridor(a, b, horizontal_first, p[i].0, p[i].1));
    }
}

/// Consecutive rooms of a generated level are joined by a walk of open tiles
/// between their centers.
pub proof fn lemma_generated_rooms_connected(
    cfg: MapConfig,
    d: Dungeon,
    before: Seq<Entity>,
    after: Seq<Entity>,
    i: int,
)
    requires
        level_generated(cfg, d, before, after),
        0 <= i < d.rooms@.len() - 1,
    ensures
        exists|path: Seq<(int, int)>| #[trigger] open_walk(
            d.map,
            path,
            center_of(d.rooms@[i]),
            center_of(d.rooms@[i + 1]),
        ),
{
    let a = center_of(d.rooms@[i]);
    let b = center_of(d.rooms@[i + 1]);
    lemma_corridor_walk(d.map, a, b, d.joins@[i]);
}

/// No two rooms of a generated level overlap or touch.
pub proof fn lemma_generated_rooms_disjoint(
    cfg: MapConfig,
    d: Dungeon,
    before: Seq<Entity>,
    after: Seq<Entity>,
    i: int,
    j: int,
)
    requires
        level_generated(cfg, d, before, after),
        0 <= i < d.rooms@.len(),
        0 <= j < d.rooms@.len(),
        i != j,
    ensures
        !rects_intersect(d.rooms@[i], d.rooms@[j]),
{
    let rooms = d.rooms@;
    if i < j {
        assert(!rects_intersect(rooms[i], rooms[j]));
    } else {
        assert(!rects_intersect(rooms[j], rooms[i]));
    }
}

} // verus!
