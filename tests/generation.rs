use dungeon_core::dungeon::{add_room, make_map, place_entities, GenError, MapConfig};
use dungeon_core::entity::{Color, Entity};
use dungeon_core::geometry::{in_order, Rect};
use dungeon_core::map::{Tile, TileMap};
use rand::rngs::StdRng;
use rand::SeedableRng;
use std::collections::VecDeque;

fn connected(map: &TileMap, from: (i32, i32), to: (i32, i32)) -> bool {
    let w = map.width as usize;
    let h = map.height as usize;
    let mut seen = vec![vec![false; h]; w];
    let mut queue = VecDeque::new();
    if map.is_blocking(from.0, from.1) {
        return false;
    }
    seen[from.0 as usize][from.1 as usize] = true;
    queue.push_back(from);
    while let Some((x, y)) = queue.pop_front() {
        if (x, y) == to {
            return true;
        }
        for (dx, dy) in [(1, 0), (-1, 0), (0, 1), (0, -1)] {
            let (nx, ny) = (x + dx, y + dy);
            if nx < 0 || ny < 0 || nx >= map.width || ny >= map.height {
                continue;
            }
            if !seen[nx as usize][ny as usize] && !map.is_blocking(nx, ny) {
                seen[nx as usize][ny as usize] = true;
                queue.push_back((nx, ny));
            }
        }
    }
    false
}

fn player() -> Entity {
    Entity::new(0, 0, '@', "Player", Color { r: 255, g: 255, b: 255 }, true, true)
}

#[test]
fn rect_corners_and_center() {
    let r = Rect::new(1, 2, 4, 6);
    assert_eq!(r, Rect { x1: 1, y1: 2, x2: 5, y2: 8 });
    assert_eq!(r.center(), (3, 5));
    assert_eq!(Rect::new(6, 6, 4, 4).center(), (8, 8));
}

#[test]
fn rects_sharing_an_edge_intersect() {
    let a = Rect::new(0, 0, 4, 4);
    let b = Rect::new(4, 0, 4, 4);
    let c = Rect::new(5, 0, 4, 4);
    assert!(a.intersects_with(&b));
    assert!(b.intersects_with(&a));
    assert!(!a.intersects_with(&c));
    assert!(!c.intersects_with(&a));
    assert!(a.intersects_with(&a));
}

#[test]
fn in_order_sorts_pair() {
    assert_eq!(in_order(5, 2), (2, 5));
    assert_eq!(in_order(2, 5), (2, 5));
    assert_eq!(in_order(3, 3), (3, 3));
}

#[test]
fn tiles_are_walls_or_open() {
    let e = Tile::empty();
    let w = Tile::wall();
    assert!(!e.blocking && !e.blocking_sight && !e.explored);
    assert!(w.blocking && w.blocking_sight && !w.explored);
}

#[test]
fn new_map_is_all_walls() {
    let m = TileMap::new(7, 5);
    assert_eq!(m.tiles.len(), 7);
    for x in 0..7 {
        for y in 0..5 {
            assert!(m.is_blocking(x, y));
            assert!(m.is_blocking_sight(x, y));
            assert!(!m.is_explored(x, y));
        }
    }
}

#[test]
fn first_room_is_carved_without_corridor() {
    let mut map = TileMap::new(10, 10);
    let mut rooms = Vec::new();
    assert!(add_room(Rect::new(1, 1, 4, 4), true, &mut map, &mut rooms));
    assert_eq!(rooms.len(), 1);
    for x in 0..10 {
        for y in 0..10 {
            let inside = (2..5).contains(&x) && (2..5).contains(&y);
            assert_eq!(map.is_blocking(x, y), !inside, "tile ({}, {})", x, y);
        }
    }
}

#[test]
fn overlapping_and_touching_rooms_are_rejected() {
    let mut map = TileMap::new(20, 20);
    let mut rooms = Vec::new();
    assert!(add_room(Rect::new(2, 2, 5, 5), true, &mut map, &mut rooms));
    let before: Vec<bool> = (0..20).flat_map(|x| (0..20).map(move |y| (x, y))).map(|(x, y)| map.is_blocking(x, y)).collect();
    assert!(!add_room(Rect::new(4, 4, 5, 5), true, &mut map, &mut rooms));
    assert!(!add_room(Rect::new(7, 2, 5, 5), false, &mut map, &mut rooms));
    assert_eq!(rooms.len(), 1);
    let after: Vec<bool> = (0..20).flat_map(|x| (0..20).map(move |y| (x, y))).map(|(x, y)| map.is_blocking(x, y)).collect();
    assert_eq!(before, after);
    assert!(add_room(Rect::new(8, 2, 5, 5), false, &mut map, &mut rooms));
    assert_eq!(rooms.len(), 2);
}

#[test]
fn two_rooms_joined_horizontal_first() {
    let mut map = TileMap::new(10, 10);
    let mut rooms = Vec::new();
    assert!(add_room(Rect::new(1, 1, 4, 4), true, &mut map, &mut rooms));
    assert!(add_room(Rect::new(6, 6, 4, 4), true, &mut map, &mut rooms));
    assert!(connected(&map, (2, 2), (8, 8)));
    assert!(connected(&map, (3, 3), (8, 8)));
    // along row 3 from column 3 to 8, then down column 8 from row 3 to 8
    for x in 3..=8 {
        assert!(!map.is_blocking(x, 3));
    }
    for y in 3..=8 {
        assert!(!map.is_blocking(8, y));
    }
}

#[test]
fn two_rooms_joined_vertical_first() {
    let mut map = TileMap::new(10, 10);
    let mut rooms = Vec::new();
    assert!(add_room(Rect::new(1, 1, 4, 4), false, &mut map, &mut rooms));
    assert!(add_room(Rect::new(6, 6, 4, 4), false, &mut map, &mut rooms));
    assert!(connected(&map, (2, 2), (8, 8)));
    for y in 3..=8 {
        assert!(!map.is_blocking(3, y));
    }
    for x in 3..=8 {
        assert!(!map.is_blocking(x, 8));
    }
    assert!(map.is_blocking(8, 2));
}

#[test]
fn creatures_land_on_free_interior_tiles() {
    let mut map = TileMap::new(12, 12);
    let mut rooms = Vec::new();
    let room = Rect::new(2, 2, 6, 6);
    assert!(add_room(room, true, &mut map, &mut rooms));
    let mut entities = vec![player()];
    entities[0].set_pos(5, 5);
    let mut rng = StdRng::seed_from_u64(11);
    place_entities(room, &map, &mut entities, &mut rng);
    assert!(entities.len() >= 1 && entities.len() <= 4);
    assert_eq!(entities[0].pos(), (5, 5));
    for (i, e) in entities.iter().enumerate().skip(1) {
        assert!(e.x > room.x1 && e.x < room.x2 && e.y > room.y1 && e.y < room.y2);
        assert!(!map.is_blocking(e.x, e.y));
        assert!(e.blocking);
        for other in &entities[..i] {
            assert_ne!(other.pos(), e.pos());
        }
    }
}

#[test]
fn room_without_interior_gets_no_creature() {
    let map = TileMap::new(10, 10);
    let mut entities = vec![player()];
    let mut rng = StdRng::seed_from_u64(3);
    place_entities(Rect::new(2, 2, 1, 1), &map, &mut entities, &mut rng);
    assert_eq!(entities.len(), 1);
}

fn standard_config() -> MapConfig {
    MapConfig { width: 80, height: 45, room_min: 6, room_max: 10, max_rooms: 30 }
}

#[test]
fn generated_rooms_do_not_touch() {
    for seed in 0..20 {
        let mut entities = vec![player()];
        let mut rng = StdRng::seed_from_u64(seed);
        let d = make_map(standard_config(), &mut entities, &mut rng).unwrap();
        assert!(!d.rooms.is_empty() && d.rooms.len() <= 30);
        for i in 0..d.rooms.len() {
            let r = d.rooms[i];
            assert!(r.x2 - r.x1 >= 6 && r.x2 - r.x1 <= 10);
            assert!(r.y2 - r.y1 >= 6 && r.y2 - r.y1 <= 10);
            for j in 0..d.rooms.len() {
                if i != j {
                    assert!(!d.rooms[i].intersects_with(&d.rooms[j]));
                }
            }
        }
    }
}

#[test]
fn generated_consecutive_rooms_are_connected() {
    for seed in 0..20 {
        let mut entities = vec![player()];
        let mut rng = StdRng::seed_from_u64(seed);
        let d = make_map(standard_config(), &mut entities, &mut rng).unwrap();
        for pair in d.rooms.windows(2) {
            assert!(connected(&d.map, pair[0].center(), pair[1].center()));
        }
    }
}

#[test]
fn generated_player_and_creatures_are_placed() {
    let mut entities = vec![player()];
    let mut rng = StdRng::seed_from_u64(42);
    let d = make_map(standard_config(), &mut entities, &mut rng).unwrap();
    assert_eq!(entities[0].pos(), d.rooms[0].center());
    assert_eq!(entities[0].char, '@');
    assert_eq!(entities[0].name, "Player");
    assert!(entities.len() > d.rooms.len());
    for e in entities.iter().skip(1) {
        assert!(d.rooms.iter().any(|r| e.x > r.x1 && e.x < r.x2 && e.y > r.y1 && e.y < r.y2));
        assert!(!d.map.is_blocking(e.x, e.y));
        assert!(matches!(e.char, 'U' | 'f' | 'e'));
    }
    for x in 0..80 {
        for y in 0..45 {
            assert!(!d.map.is_explored(x, y));
            assert_eq!(d.map.is_blocking(x, y), d.map.is_blocking_sight(x, y));
        }
    }
}

#[test]
fn same_seed_gives_same_level() {
    let mut e1 = vec![player()];
    let mut e2 = vec![player()];
    let d1 = make_map(standard_config(), &mut e1, &mut StdRng::seed_from_u64(9)).unwrap();
    let d2 = make_map(standard_config(), &mut e2, &mut StdRng::seed_from_u64(9)).unwrap();
    assert_eq!(d1.rooms, d2.rooms);
    assert_eq!(e1.len(), e2.len());
}

#[test]
fn no_candidate_room_is_an_error() {
    let mut entities = vec![player()];
    let mut rng = StdRng::seed_from_u64(1);
    let cfg = MapConfig { max_rooms: 0, ..standard_config() };
    assert!(matches!(make_map(cfg, &mut entities, &mut rng), Err(GenError::NoRoomAccepted)));
    assert_eq!(entities.len(), 1);
    assert_eq!(entities[0].pos(), (0, 0));
}

#[test]
fn one_candidate_room_is_always_accepted() {
    let mut entities = vec![player()];
    let mut rng = StdRng::seed_from_u64(5);
    let cfg = MapConfig { width: 10, height: 10, room_min: 0, room_max: 9, max_rooms: 1 };
    let d = make_map(cfg, &mut entities, &mut rng).unwrap();
    assert_eq!(d.rooms.len(), 1);
    assert_eq!(entities[0].pos(), d.rooms[0].center());
}

#[test]
fn generation_draws_varied_rooms() {
    for seed in 0..10 {
        let mut entities = vec![player()];
        let mut rng = StdRng::seed_from_u64(seed);
        let d = make_map(standard_config(), &mut entities, &mut rng).unwrap();
        assert!(d.rooms.len() >= 2, "seed {} gave {} rooms", seed, d.rooms.len());
        assert!(d.rooms.iter().any(|r| r.x1 != 0 || r.y1 != 0));
    }
}

fn on_route(a: (i32, i32), b: (i32, i32), horizontal_first: bool, x: i32, y: i32) -> bool {
    let between = |p: i32, q: i32, v: i32| p.min(q) <= v && v <= p.max(q);
    if horizontal_first {
        (y == a.1 && between(a.0, b.0, x)) || (x == b.0 && between(a.1, b.1, y))
    } else {
        (x == a.0 && between(a.1, b.1, y)) || (y == b.1 && between(a.0, b.0, x))
    }
}

#[test]
fn generated_open_tiles_lie_in_rooms_or_recorded_corridors() {
    for seed in 0..10 {
        let mut entities = vec![player()];
        let mut rng = StdRng::seed_from_u64(seed);
        let d = make_map(standard_config(), &mut entities, &mut rng).unwrap();
        assert_eq!(d.joins.len() + 1, d.rooms.len());
        for x in 0..80 {
            for y in 0..45 {
                let in_room = d.rooms.iter().any(|r| r.x1 < x && x < r.x2 && r.y1 < y && y < r.y2);
                let in_corridor = (0..d.joins.len()).any(|i| {
                    on_route(d.rooms[i].center(), d.rooms[i + 1].center(), d.joins[i], x, y)
                });
                assert_eq!(!d.map.is_blocking(x, y), in_room || in_corridor, "seed {} tile ({}, {})", seed, x, y);
            }
        }
    }
}

#[test]
fn generated_rooms_get_one_to_three_creatures_each() {
    for seed in 0..10 {
        let mut entities = vec![player()];
        let mut rng = StdRng::seed_from_u64(seed);
        let d = make_map(standard_config(), &mut entities, &mut rng).unwrap();
        assert_eq!(d.first_creature.len(), d.rooms.len());
        assert_eq!(d.first_creature[0], 1);
        for k in 0..d.rooms.len() {
            let end = if k + 1 < d.rooms.len() { d.first_creature[k + 1] } else { entities.len() };
            let count = end - d.first_creature[k];
            assert!((1..=3).contains(&count), "seed {} room {} got {}", seed, k, count);
            let r = d.rooms[k];
            for e in &entities[d.first_creature[k]..end] {
                assert!(r.x1 < e.x && e.x < r.x2 && r.y1 < e.y && e.y < r.y2);
            }
        }
    }
}

#[test]
fn free_room_always_gets_a_creature() {
    let mut map = TileMap::new(12, 12);
    let mut rooms = Vec::new();
    let room = Rect::new(2, 2, 4, 4);
    assert!(add_room(room, true, &mut map, &mut rooms));
    for seed in 0..30 {
        let mut entities = vec![player()];
        let mut rng = StdRng::seed_from_u64(seed);
        place_entities(room, &map, &mut entities, &mut rng);
        assert!(entities.len() >= 2 && entities.len() <= 4);
    }
}

#[test]
fn last_free_tile_is_found() {
    let mut map = TileMap::new(12, 12);
    let mut rooms = Vec::new();
    let room = Rect::new(2, 2, 4, 4);
    assert!(add_room(room, true, &mut map, &mut rooms));
    for seed in 0..30 {
        let mut entities = vec![player()];
        for x in 3..6 {
            for y in 3..6 {
                if (x, y) != (5, 4) {
                    entities.push(Entity::new(x, y, 'o', "Rock", Color { r: 1, g: 1, b: 1 }, true, true));
                }
            }
        }
        let before = entities.len();
        let mut rng = StdRng::seed_from_u64(seed);
        place_entities(room, &map, &mut entities, &mut rng);
        assert_eq!(entities.len(), before + 1, "seed {}", seed);
        assert_eq!(entities[before].pos(), (5, 4));
    }
}

#[test]
fn full_room_gets_no_creature() {
    let mut map = TileMap::new(12, 12);
    let mut rooms = Vec::new();
    let room = Rect::new(2, 2, 3, 3);
    assert!(add_room(room, true, &mut map, &mut rooms));
    let mut entities = vec![player()];
    for x in 3..5 {
        for y in 3..5 {
            entities.push(Entity::new(x, y, 'o', "Rock", Color { r: 1, g: 1, b: 1 }, true, true));
        }
    }
    let mut rng = StdRng::seed_from_u64(2);
    place_entities(room, &map, &mut entities, &mut rng);
    assert_eq!(entities.len(), 5);
}
