//! The game state between turns, movement, and what is drawn for each tile.

use crate::entity::{moved_to, occupied_except, Color, Entity};
use crate::fov::{compute_fov, explored_from, mark_explored, Fov};
use crate::map::TileMap;
use vstd::prelude::*;

verus! {

/// Index of the player in the entity list.
pub const PLAYER: usize = 0;

/// The level being played and whether the field of view must be recomputed.
pub struct Game {
    pub map: TileMap,
    pub fov: Fov,
    pub fov_recompute: bool,
}

/// One turn's input.
#[derive(Clone, Copy, Debug, PartialEq, Eq, Structural)]
pub enum Action {
    MoveUp,
    MoveDown,
    MoveLeft,
    MoveRight,
    Quit,
    NoOp,
}

/// The step that an action asks the player to take, if any.
pub open spec fn action_step(a: Action) -> Option<(int, int)> {
    match a {
        Action::MoveUp => Some((0, -1)),
        Action::MoveDown => Some((0, 1)),
        Action::MoveLeft => Some((-1, 0)),
        Action::MoveRight => Some((1, 0)),
        _ => None,
    }
}

/// The background of a tile: light when seen now, dark otherwise, in wall or
/// floor colors.
pub open spec fn background_spec(visible: bool, wall: bool) -> Color {
    match (visible, wall) {
        (false, true) => Color { r: 0, g: 0, b: 100 },
        (false, false) => Color { r: 50, g: 50, b: 150 },
        (true, true) => Color { r: 130, g: 110, b: 50 },
        (true, false) => Color { r: 200, g: 180, b: 50 },
    }
}

/// The background color of a tile, as `background_spec` says.
pub fn background_color(visible: bool, wall: bool) -> (r: Color)
    ensures
        r == background_spec(visible, wall),
{
    match (visible, wall) {
        (false, true) => Color { r: 0, g: 0, b: 100 },
        (false, false) => Color { r: 50, g: 50, b: 150 },
        (true, true) => Color { r: 130, g: 110, b: 50 },
        (true, false) => Color { r: 200, g: 180, b: 50 },
    }
}

impl Game {
    /// The map and the visible set cover the same grid.
    pub open spec fn wf(&self) -> bool {
        &&& self.map.wf()
        &&& self.fov.wf()
        &&& self.fov.width == self.map.width
        &&& self.fov.height == self.map.height
    }

    /// A game on `map` with nothing seen yet and a recomputation pending.
    pub fn new(map: TileMap) -> (r: Game)
        requires
            map.wf(),
        ensures
            r.wf(),
            r.map == map,
            r.fov_recompute,
            forall|x: int, y: int| map.in_bounds(x, y) ==> !#[trigger] r.fov.seen(x, y),
    {
        let fov = Fov::new(map.width, map.height);
        Game { map, fov, fov_recompute: true }
    }

    /// Marks the field of view as up to date.
    pub fn reset_fov(&mut self)
        ensures
            *final(self) == (Game { fov_recompute: false, ..*old(self) }),
    {
        self.fov_recompute = false;
    }

    /// Asks for the field of view to be recomputed.
    pub fn set_recalculate_fov(&mut self)
        ensures
            *final(self) == (Game { fov_recompute: true, ..*old(self) }),
    {
        self.fov_recompute = true;
    }

    /// Recomputes the visible set from the player's position when asked to,
    /// then marks every visible tile explored. The new set replaces the old.
    pub fn update_fov(&mut self, entities: &Vec<Entity>, radius: i32, light_walls: bool)
        requires
            old(self).wf(),
            entities@.len() > PLAYER,
            old(self).map.in_bounds(entities@[PLAYER as int].x as int, entities@[PLAYER as int].y as int),
        ensures
            final(self).wf(),
            final(self).fov_recompute == old(self).fov_recompute,
            old(self).fov_recompute ==> final(self).fov.matches(
                old(self).map,
                entities@[PLAYER as int].x as int,
                entities@[PLAYER as int].y as int,
                radius as int,
                light_walls,
            ),
            !old(self).fov_recompute ==> final(self).fov == old(self).fov,
            explored_from(final(self).map, old(self).map, final(self).fov),
            forall|x: int, y: int|
                old(self).map.in_bounds(x, y) && old(self).map.tile(x, y).explored
                    ==> #[trigger] final(self).map.tile(x, y).explored,
    {
        if self.fov_recompute {
            let player = &entities[PLAYER];
            self.fov = compute_fov(&self.map, player.x, player.y, radius, light_walls);
        }
        mark_explored(&mut self.map, &self.fov);
    }

    /// The background to draw at `(x, y)`: none for a tile never explored.
    pub fn tile_background(&self, x: i32, y: i32) -> (r: Option<Color>)
        requires
            self.wf(),
            self.map.in_bounds(x as int, y as int),
        ensures
            !self.map.tile(x as int, y as int).explored ==> r is None,
            self.map.tile(x as int, y as int).explored ==> r == Some(
                background_spec(self.fov.seen(x as int, y as int), self.map.tile(x as int, y as int).blocking_sight),
            ),
    {
        if self.map.is_explored(x, y) {
            Some(background_color(self.fov.is_in_fov(x, y), self.map.is_blocking_sight(x, y)))
        } else {
            None
        }
    }
}

/// Moves entity `subject_index` by `(dx, dy)` unless the destination tile
/// blocks or another blocking entity stands there. Moving the player asks for
/// the field of view to be recomputed.
pub fn move_by(subject_index: usize, dx: i32, dy: i32, game: &mut Game, entities: &mut Vec<Entity>)
    requires
        old(game).map.wf(),
        subject_index < old(entities)@.len(),
        old(game).map.in_bounds(
            old(entities)@[subject_index as int].x + dx,
            old(entities)@[subject_index as int].y + dy,
        ),
    ensures
        ({
            let e = old(entities)@[subject_index as int];
            let (nx, ny) = (e.x + dx, e.y + dy);
            let blocked = old(game).map.tile(nx, ny).blocking || occupied_except(
                old(entities)@,
                subject_index as int,
                nx,
                ny,
            );
            &&& blocked ==> final(entities)@ == old(entities)@ && *final(game) == *old(game)
            &&& !blocked ==> {
                &&& final(entities)@.len() == old(entities)@.len()
                &&& moved_to(e, final(entities)@[subject_index as int], nx, ny)
                &&& forall|j: int|
                    0 <= j < old(entities)@.len() && j != subject_index ==> #[trigger] final(entities)@[j]
                        == old(entities)@[j]
                &&& final(game).map == old(game).map
                &&& final(game).fov == old(game).fov
                &&& final(game).fov_recompute == (subject_index == PLAYER || old(game).fov_recompute)
            }
        }),
{
    let (x, y) = entities[subject_index].pos();
    let nx = x + dx;
    let ny = y + dy;
    if game.map.is_blocking(nx, ny) {
        return;
    }
    if crate::entity::is_occupied_except(nx, ny, entities, subject_index) {
        return;
    }
    entities[subject_index].set_pos(nx, ny);
    if subject_index == PLAYER {
        game.set_recalculate_fov();
    }
}

/// Carries out one turn's action for the player and tells whether the game
/// ends. A step off the map is ignored.
pub fn handle_action(action: Action, game: &mut Game, entities: &mut Vec<Entity>) -> (exit: bool)
    requires
        old(game).map.wf(),
        old(entities)@.len() > PLAYER,
    ensures
        exit == (action == Action::Quit),
        ({
            let p = old(entities)@[PLAYER as int];
            match action_step(action) {
                None => final(entities)@ == old(entities)@ && *final(game) == *old(game),
                Some((dx, dy)) => {
                    let (nx, ny) = (p.x + dx, p.y + dy);
                    if !old(game).map.in_bounds(nx, ny) || old(game).map.tile(nx, ny).blocking
                        || occupied_except(old(entities)@, PLAYER as int, nx, ny) {
                        final(entities)@ == old(entities)@ && *final(game) == *old(game)
                    } else {
                        &&& final(entities)@.len() == old(entities)@.len()
                        &&& moved_to(p, final(entities)@[PLAYER as int], nx, ny)
                        &&& forall|j: int|
                            0 < j < old(entities)@.len() ==> #[trigger] final(entities)@[j]
                                == old(entities)@[j]
                        &&& final(game).map == old(game).map
                        &&& final(game).fov == old(game).fov
                        &&& final(game).fov_recompute
                    }
                },
            }
        }),
{
    let (dx, dy): (i32, i32) = match action {
        Action::MoveUp => (0, -1),
        Action::MoveDown => (0, 1),
        Action::MoveLeft => (-1, 0),
        Action::MoveRight => (1, 0),
        Action::Quit => {
            return true;
        },
        Action::NoOp => {
            return false;
        },
    };
    let (x, y) = entities[PLAYER].pos();
    let nx: i64 = x as i64 + dx as i64;
    let ny: i64 = y as i64 + dy as i64;
    if nx < 0 || nx >= game.map.width as i64 || ny < 0 || ny >= game.map.height as i64 {
        return false;
    }
    move_by(PLAYER, dx, dy, game, entities);
    false
}

} // verus!
