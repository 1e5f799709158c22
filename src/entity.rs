//! Entities: the player and the creatures that share the level.

use crate::map::TileMap;
use vstd::prelude::*;

verus! {

/// A display color.
#[derive(Clone, Copy, Debug, PartialEq, Eq, Structural)]
pub struct Color {
    pub r: u8,
    pub g: u8,
    pub b: u8,
}

/// An entity of the level: a position and what is shown for it.
#[derive(Debug)]
pub struct Entity {
    pub x: i32,
    pub y: i32,
    pub char: char,
    pub color: Color,
    pub name: String,
    pub blocking: bool,
    pub alive: bool,
}

impl Entity {
    pub fn new(
        x: i32,
        y: i32,
        char: char,
        name: &str,
        color: Color,
        blocking: bool,
        alive: bool,
    ) -> (r: Self)
        ensures
            r.x == x,
            r.y == y,
            r.char == char,
            r.name@ == name@,
            r.color == color,
            r.blocking == blocking,
            r.alive == alive,
    {
        Entity { x, y, char, name: name.to_owned(), color, blocking, alive }
    }

    /// The entity's position.
    pub fn pos(&self) -> (r: (i32, i32))
        ensures
            r == (self.x, self.y),
    {
        (self.x, self.y)
    }

    /// Moves the entity to `(x, y)`; nothing else changes.
    pub fn set_pos(&mut self, x: i32, y: i32)
        ensures
            final(self).x == x,
            final(self).y == y,
            final(self).char == old(self).char,
            final(self).color == old(self).color,
            final(self).name == old(self).name,
            final(self).blocking == old(self).blocking,
            final(self).alive == old(self).alive,
    {
        self.x = x;
        self.y = y;
    }
}

/// `e` is `p` moved to `(x, y)`.
pub open spec fn moved_to(p: Entity, e: Entity, x: int, y: int) -> bool {
    &&& e.x == x
    &&& e.y == y
    &&& e.char == p.char
    &&& e.color == p.color
    &&& e.name == p.name
    &&& e.blocking == p.blocking
    &&& e.alive == p.alive
}

/// Some entity of `ents` with index other than `skip` blocks and stands at `(x, y)`.
/// With `skip` at or beyond the end, every entity is considered.
pub open spec fn occupied_except(ents: Seq<Entity>, skip: int, x: int, y: int) -> bool {
    exists|i: int|
        0 <= i < ents.len() && i != skip && #[trigger] ents[i].blocking && ents[i].x == x
            && ents[i].y == y
}

/// `(x, y)` is a blocking tile, or a blocking entity stands there.
pub open spec fn blocked_at(map: TileMap, ents: Seq<Entity>, x: int, y: int) -> bool {
    map.tile(x, y).blocking || occupied_except(ents, ents.len() as int, x, y)
}

/// Whether a blocking entity other than the one at index `skip` stands at `(x, y)`.
pub fn is_occupied_except(x: i32, y: i32, entities: &Vec<Entity>, skip: usize) -> (r: bool)
    ensures
        r == occupied_except(entities@, skip as int, x as int, y as int),
{
    let mut i: usize = 0;
    while i < entities.len()
        invariant
            0 <= i <= entities@.len(),
            forall|k: int|
                0 <= k < i && k != skip ==> !(#[trigger] entities@[k].blocking && entities@[k].x
                    == x && entities@[k].y == y),
        decreases entities.len() - i,
    {
        if i != skip && entities[i].blocking && entities[i].x == x && entities[i].y == y {
            return true;
        }
        i = i + 1;
    }
    false
}

/// Whether `(x, y)` cannot be entered: its tile blocks, or a blocking entity
/// stands there.
pub fn is_blocked(x: i32, y: i32, map: &TileMap, entities: &Vec<Entity>) -> (r: bool)
    requires
        map.wf(),
        map.in_bounds(x as int, y as int),
    ensures
        r == blocked_at(*map, entities@, x as int, y as int),
{
    if map.is_blocking(x, y) {
        return true;
    }
    is_occupied_except(x, y, entities, entities.len())
}

/// The creature that a roll in `[0, 100)` picks: a unicorn below 20, a fairy
/// below 60, an elf otherwise.
pub fn creature_for_roll(roll: i32, x: i32, y: i32) -> (r: Entity)
    ensures
        r.x == x,
        r.y == y,
        r.blocking,
        r.alive,
        roll < 20 ==> r.char == 'U' && r.name@ == "Unicorn"@ && r.color == (Color { r: 0, g: 127, b: 127 }),
        20 <= roll < 60 ==> r.char == 'f' && r.name@ == "Fairy"@ && r.color == (Color { r: 255, g: 0, b: 191 }),
        60 <= roll ==> r.char == 'e' && r.name@ == "Elf"@ && r.color == (Color { r: 191, g: 0, b: 0 }),
{
    if roll < 20 {
        Entity::new(x, y, 'U', "Unicorn", Color { r: 0, g: 127, b: 127 }, true, true)
    } else if roll < 60 {
        Entity::new(x, y, 'f', "Fairy", Color { r: 255, g: 0, b: 191 }, true, true)
    } else {
        Entity::new(x, y, 'e', "Elf", Color { r: 191, g: 0, b: 0 }, true, true)
    }
}

} // verus!
