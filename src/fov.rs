//! Field of view: which tiles the subject sees, and the fog of war.

use crate::map::{Tile, TileMap};
use vstd::prelude::*;

verus! {

/// The absolute value of `a`.
pub open spec fn abs_int(a: int) -> int {
    if a >= 0 {
        a
    } else {
        -a
    }
}

/// The number of steps of the sight line from `(ox, oy)` to `(tx, ty)`:
/// the larger of the two distances along the axes.
pub open spec fn line_steps(ox: int, oy: int, tx: int, ty: int) -> int {
    let a = abs_int(tx - ox);
    let b = abs_int(ty - oy);
    if a >= b {
        a
    } else {
        b
    }
}

/// How far along an axis step `k` of `n` has gone, for a total offset `d`:
/// `k * d / n` rounded to the nearest integer, halves away from zero.
pub open spec fn line_offset(d: int, n: int, k: int) -> int {
    if d >= 0 {
        (2 * k * d + n) / (2 * n)
    } else {
        -((2 * k * (-d) + n) / (2 * n))
    }
}

/// Column of step `k` of the sight line from `(ox, oy)` to `(tx, ty)`.
pub open spec fn line_x(ox: int, oy: int, tx: int, ty: int, k: int) -> int {
    ox + line_offset(tx - ox, line_steps(ox, oy, tx, ty), k)
}

/// Row of step `k` of the sight line from `(ox, oy)` to `(tx, ty)`.
pub open spec fn line_y(ox: int, oy: int, tx: int, ty: int, k: int) -> int {
    oy + line_offset(ty - oy, line_steps(ox, oy, tx, ty), k)
}

/// Nothing is seen through `(x, y)`: it is off the map or blocks sight.
pub open spec fn blocks_sight_at(map: TileMap, x: int, y: int) -> bool {
    !map.in_bounds(x, y) || map.tile(x, y).blocking_sight
}

/// No tile strictly between `(ox, oy)` and `(tx, ty)` on the sight line blocks sight.
pub open spec fn sight_clear(map: TileMap, ox: int, oy: int, tx: int, ty: int) -> bool {
    forall|k: int|
        0 < k < line_steps(ox, oy, tx, ty) ==> !blocks_sight_at(
            map,
            #[trigger] line_x(ox, oy, tx, ty, k),
            line_y(ox, oy, tx, ty, k),
        )
}

/// `(x, y)` is seen from `(ox, oy)`: it is the origin, or it lies on the map
/// within `radius` steps (counting diagonal steps as one), its sight line is
/// clear, and, unless `light_walls`, it does not block sight itself.
pub open spec fn visible_from(
    map: TileMap,
    ox: int,
    oy: int,
    radius: int,
    light_walls: bool,
    x: int,
    y: int,
) -> bool {
    map.in_bounds(x, y) && ((x == ox && y == oy) || (line_steps(ox, oy, x, y) <= radius
        && sight_clear(map, ox, oy, x, y) && (light_walls || !map.tile(x, y).blocking_sight)))
}

/// `o + line_offset(d, n, k)`, computed without overflow.
fn line_coord(o: i32, d: i64, n: i64, k: i64) -> (r: i64)
    requires
        0 < n < 0x8000_0000,
        0 <= k <= n,
        -n <= d <= n,
    ensures
        r == o + line_offset(d as int, n as int, k as int),
{
    let e: i64 = if d >= 0 { d } else { -d };
    assert(0 <= k * e <= n * n) by (nonlinear_arith)
        requires
            0 <= k <= n,
            0 <= e <= n,
    ;
    assert(2 * (k * e) + n < 0x7FFF_FFFF_FFFF_FFFF) by (nonlinear_arith)
        requires
            0 < n < 0x8000_0000,
            0 <= k <= n,
            0 <= e <= n,
    ;
    let p: i64 = k * e;
    let q: i64 = (2 * p + n) / (2 * n);
    assert(0 <= q <= k) by (nonlinear_arith)
        requires
            q == (2 * p + n) / (2 * n),
            p == k * e,
            0 <= e <= n,
            0 <= k,
            0 < n,
    ;
    assert(2 * k * e == 2 * p) by (nonlinear_arith)
        requires
            p == k * e,
    ;
    if d >= 0 {
        o as i64 + q
    } else {
        o as i64 - q
    }
}

/// Whether `(x, y)` is seen from `(ox, oy)`, as `visible_from` says.
pub fn is_visible_from(
    map: &TileMap,
    ox: i32,
    oy: i32,
    radius: i32,
    light_walls: bool,
    x: i32,
    y: i32,
) -> (r: bool)
    requires
        map.wf(),
        map.in_bounds(ox as int, oy as int),
        map.in_bounds(x as int, y as int),
    ensures
        r == visible_from(*map, ox as int, oy as int, radius as int, light_walls, x as int, y as int),
{
    if x == ox && y == oy {
        return true;
    }
    let dx: i64 = x as i64 - ox as i64;
    let dy: i64 = y as i64 - oy as i64;
    let adx: i64 = if dx >= 0 { dx } else { -dx };
    let ady: i64 = if dy >= 0 { dy } else { -dy };
    let n: i64 = if adx >= ady { adx } else { ady };
    assert(n == line_steps(ox as int, oy as int, x as int, y as int));
    if n > radius as i64 {
        return false;
    }
    if !light_walls && map.is_blocking_sight(x, y) {
        return false;
    }
    let mut k: i64 = 1;
    while k < n
        invariant
            map.wf(),
            0 < n < 0x8000_0000,
            n == line_steps(ox as int, oy as int, x as int, y as int),
            dx == x - ox,
            dy == y - oy,
            -n <= dx <= n,
            -n <= dy <= n,
            1 <= k <= n,
            forall|j: int|
                0 < j < k ==> !blocks_sight_at(
                    *map,
                    #[trigger] line_x(ox as int, oy as int, x as int, y as int, j),
                    line_y(ox as int, oy as int, x as int, y as int, j),
                ),
        decreases n - k,
    {
        let px = line_coord(ox, dx, n, k);
        let py = line_coord(oy, dy, n, k);
        if px < 0 || px >= map.width as i64 || py < 0 || py >= map.height as i64 {
            assert(blocks_sight_at(
                *map,
                line_x(ox as int, oy as int, x as int, y as int, k as int),
                line_y(ox as int, oy as int, x as int, y as int, k as int),
            ));
            return false;
        }
        if map.is_blocking_sight(px as i32, py as i32) {
            assert(blocks_sight_at(
                *map,
                line_x(ox as int, oy as int, x as int, y as int, k as int),
                line_y(ox as int, oy as int, x as int, y as int, k as int),
            ));
            return false;
        }
        k = k + 1;
    }
    true
}

} // verus!

verus! {

/// The tiles seen at one moment, stored column by column: `cells[x][y]`.
pub struct Fov {
    pub width: i32,
    pub height: i32,
    pub cells: Vec<Vec<bool>>,
}

impl Fov {
    pub open spec fn wf(&self) -> bool {
        &&& 0 <= self.width
        &&& 0 <= self.height
        &&& self.cells@.len() == self.width
        &&& forall|x: int| 0 <= x < self.width ==> (#[trigger] self.cells@[x])@.len() == self.height
    }

    /// Whether `(x, y)` is in the set.
    pub open spec fn seen(&self, x: int, y: int) -> bool {
        self.cells@[x]@[y]
    }

    /// The set of the tiles of `map` seen from `(ox, oy)`, as `visible_from` says.
    pub open spec fn matches(&self, map: TileMap, ox: int, oy: int, radius: int, light_walls: bool) -> bool {
        &&& self.wf()
        &&& self.width == map.width
        &&& self.height == map.height
        &&& forall|x: int, y: int|
            map.in_bounds(x, y) ==> #[trigger] self.seen(x, y) == visible_from(
                map,
                ox,
                oy,
                radius,
                light_walls,
                x,
                y,
            )
    }

    /// An empty set over a `width` by `height` grid.
    pub fn new(width: i32, height: i32) -> (r: Fov)
        requires
            0 <= width,
            0 <= height,
        ensures
            r.wf(),
            r.width == width,
            r.height == height,
            forall|x: int, y: int| 0 <= x < width && 0 <= y < height ==> !#[trigger] r.seen(x, y),
    {
        let mut cells: Vec<Vec<bool>> = Vec::new();
        let mut x: i32 = 0;
        while x < width
            invariant
                0 <= x <= width,
                0 <= height,
                cells@.len() == x,
                forall|i: int| 0 <= i < x ==> (#[trigger] cells@[i])@.len() == height,
                forall|i: int, j: int| 0 <= i < x && 0 <= j < height ==> !#[trigger] cells@[i]@[j],
            decreases width - x,
        {
            let mut column: Vec<bool> = Vec::new();
            let mut y: i32 = 0;
            while y < height
                invariant
                    0 <= y <= height,
                    column@.len() == y,
                    forall|j: int| 0 <= j < y ==> !#[trigger] column@[j],
                decreases height - y,
            {
                column.push(false);
                y = y + 1;
            }
            cells.push(column);
            x = x + 1;
        }
        Fov { width, height, cells }
    }

    /// Whether `(x, y)` is in the set.
    pub fn is_in_fov(&self, x: i32, y: i32) -> (r: bool)
        requires
            self.wf(),
            0 <= x < self.width,
            0 <= y < self.height,
        ensures
            r == self.seen(x as int, y as int),
    {
        self.cells[x as usize][y as usize]
    }
}

/// The tiles of `map` seen from `(ox, oy)` within `radius`; with
/// `light_walls`, a tile that blocks sight is seen when its sight line is clear.
pub fn compute_fov(map: &TileMap, ox: i32, oy: i32, radius: i32, light_walls: bool) -> (r: Fov)
    requires
        map.wf(),
        map.in_bounds(ox as int, oy as int),
    ensures
        r.matches(*map, ox as int, oy as int, radius as int, light_walls),
{
    let mut cells: Vec<Vec<bool>> = Vec::new();
    let mut x: i32 = 0;
    while x < map.width
        invariant
            map.wf(),
            map.in_bounds(ox as int, oy as int),
            0 <= x <= map.width,
            cells@.len() == x,
            forall|i: int| 0 <= i < x ==> (#[trigger] cells@[i])@.len() == map.height,
            forall|i: int, j: int|
                0 <= i < x && 0 <= j < map.height ==> #[trigger] cells@[i]@[j] == visible_from(
                    *map,
                    ox as int,
                    oy as int,
                    radius as int,
                    light_walls,
                    i,
                    j,
                ),
        decreases map.width - x,
    {
        let mut column: Vec<bool> = Vec::new();
        let mut y: i32 = 0;
        while y < map.height
            invariant
                map.wf(),
                map.in_bounds(ox as int, oy as int),
                0 <= x < map.width,
                0 <= y <= map.height,
                column@.len() == y,
                forall|j: int|
                    0 <= j < y ==> #[trigger] column@[j] == visible_from(
                        *map,
                        ox as int,
                        oy as int,
                        radius as int,
                        light_walls,
                        x as int,
                        j,
                    ),
            decreases map.height - y,
        {
            column.push(is_visible_from(map, ox, oy, radius, light_walls, x, y));
            y = y + 1;
        }
        cells.push(column);
        x = x + 1;
    }
    Fov { width: map.width, height: map.height, cells }
}

/// `new` is `old` with every tile of `fov` marked explored; nothing else changes.
pub open spec fn explored_from(new: TileMap, old: TileMap, fov: Fov) -> bool {
    &&& new.wf()
    &&& new.width == old.width
    &&& new.height == old.height
    &&& forall|x: int, y: int|
        new.in_bounds(x, y) ==> #[trigger] new.tile(x, y) == (Tile {
            explored: old.tile(x, y).explored || fov.seen(x, y),
            ..old.tile(x, y)
        })
}

/// Marks every tile of `fov` explored. A tile once explored stays so.
pub fn mark_explored(map: &mut TileMap, fov: &Fov)
    requires
        old(map).wf(),
        fov.wf(),
        fov.width == old(map).width,
        fov.height == old(map).height,
    ensures
        explored_from(*final(map), *old(map), *fov),
        forall|x: int, y: int|
            final(map).in_bounds(x, y) && old(map).tile(x, y).explored ==> #[trigger] final(map).tile(x, y).explored,
{
    let ghost start = *map;
    let mut x: i32 = 0;
    while x < map.width
        invariant
            map.wf(),
            fov.wf(),
            map.width == start.width,
            map.height == start.height,
            fov.width == map.width,
            fov.height == map.height,
            0 <= x <= map.width,
            forall|i: int, j: int|
                map.in_bounds(i, j) ==> #[trigger] map.tile(i, j) == (if i < x {
                    Tile { explored: start.tile(i, j).explored || fov.seen(i, j), ..start.tile(i, j) }
                } else {
                    start.tile(i, j)
                }),
        decreases map.width - x,
    {
        let mut y: i32 = 0;
        while y < map.height
            invariant
                map.wf(),
                fov.wf(),
                map.width == start.width,
                map.height == start.height,
                fov.width == map.width,
                fov.height == map.height,
                0 <= x < map.width,
                0 <= y <= map.height,
                forall|i: int, j: int|
                    map.in_bounds(i, j) ==> #[trigger] map.tile(i, j) == (if i < x || (i == x && j < y) {
                        Tile { explored: start.tile(i, j).explored || fov.seen(i, j), ..start.tile(i, j) }
                    } else {
                        start.tile(i, j)
                    }),
            decreases map.height - y,
        {
            if fov.is_in_fov(x, y) {
                map.set_explored(x, y);
            }
            y = y + 1;
        }
        x = x + 1;
    }
}

/// With radius 0 the origin is the only tile seen.
pub proof fn lemma_radius_zero_sees_only_origin(map: TileMap, ox: int, oy: int, light_walls: bool, x: int, y: int)
    requires
        map.wf(),
        map.in_bounds(ox, oy),
    ensures
        visible_from(map, ox, oy, 0, light_walls, x, y) <==> (x == ox && y == oy),
{
}

/// Nothing is seen past a tile that blocks sight on its sight line, and
/// without `light_walls` a tile that blocks sight is not seen itself, the
/// origin aside.
pub proof fn lemma_sight_stops_at_blockers(
    map: TileMap,
    ox: int,
    oy: int,
    radius: int,
    light_walls: bool,
    x: int,
    y: int,
    k: int,
)
    ensures
        0 < k < line_steps(ox, oy, x, y) && blocks_sight_at(
            map,
            line_x(ox, oy, x, y, k),
            line_y(ox, oy, x, y, k),
        ) ==> !visible_from(map, ox, oy, radius, light_walls, x, y),
        !(x == ox && y == oy) && map.in_bounds(x, y) && map.tile(x, y).blocking_sight
            ==> !visible_from(map, ox, oy, radius, false, x, y),
{
    if 0 < k < line_steps(ox, oy, x, y) {
        assert(line_steps(ox, oy, x, y) > 0);
        assert(!(x == ox && y == oy));
    }
}

/// A visible set computed from `(ox, oy)` holds no tile past a tile that
/// blocks sight on the tile's sight line and, without `light_walls`, no tile
/// that blocks sight, the origin aside.
pub proof fn lemma_fov_stops_at_blockers(
    fov: Fov,
    map: TileMap,
    ox: int,
    oy: int,
    radius: int,
    light_walls: bool,
    x: int,
    y: int,
    k: int,
)
    requires
        fov.matches(map, ox, oy, radius, light_walls),
        map.in_bounds(x, y),
        fov.seen(x, y),
    ensures
        0 < k < line_steps(ox, oy, x, y) ==> !blocks_sight_at(
            map,
            line_x(ox, oy, x, y, k),
            line_y(ox, oy, x, y, k),
        ),
        !light_walls && !(x == ox && y == oy) ==> !map.tile(x, y).blocking_sight,
{
    lemma_sight_stops_at_blockers(map, ox, oy, radius, light_walls, x, y, k);
}

} // verus!
