use playground::encoders::{CoordinateEncoder, FlatEncoder, LoopingEncoder, ScreenSpaceEncoder};
use playground::falling_sand::{FallingSand, Tile, TileStorage};
use playground::flock::Boid;
use playground::gol::GoL;
use playground::quadtree::{Quadtree, Rectangle};
use playground::vec2::Vec2;

fn test_boid() -> Boid {
    Boid {
        position: Vec2 { x: 0, y: 0 },
        velocity: Vec2 { x: 0, y: 0 },
        acceleration: Vec2 { x: 0, y: 0 },
        alignment_force: 4,
        cohesion_force: 2,
        seperation_force: 4,
        perception_size: 37,
        max_speed: 35,
        index: 0,
    }
}

#[test]
fn flat_encoder_maps_in_bounds_and_rejects_outside() {
    let e = FlatEncoder { dimensions: (10, 5) };
    assert_eq!(e.encode(0, 0), Some(0));
    assert_eq!(e.encode(3, 2), Some(23));
    assert_eq!(e.encode(9, 4), Some(49));
    assert_eq!(e.encode(10, 0), None);
    assert_eq!(e.encode(-1, 0), None);
    assert_eq!(e.encode(0, 5), None);
    assert_eq!(e.decode(23), (3, 2));
}

#[test]
fn looping_encoder_wraps() {
    let e = LoopingEncoder { dimensions: (10, 5) };
    assert_eq!(e.encode(3, 2), Some(23));
    assert_eq!(e.encode(-1, 0), Some(9));
    assert_eq!(e.encode(0, -1), Some(40));
    assert_eq!(e.encode(12, 0), Some(2));
    // Overflowing coordinates wrap on both axes; encode never fails.
    assert_eq!(e.encode(0, 7), Some(20));
    assert_eq!(e.encode(12, 6), Some(12));
    assert_eq!(e.decode(9), (9, 0));
}

#[test]
fn screen_space_encoder_tracks_viewport() {
    let mut e = ScreenSpaceEncoder { dimensions: (800, 600) };
    e.updateDimensions(1024, 768);
    assert_eq!(e.dimensions, (1024, 768));
}

#[test]
fn lone_cell_dies() {
    let w = 8u32;
    let h = 8u32;
    let mut cells = vec![false; (w * h) as usize];
    cells[(3 * w + 3) as usize] = true;
    let mut g = GoL::from_cells(w, h, cells);
    g.update(0, 0);
    for y in 0..h {
        for x in 0..w {
            assert!(!g.get(x, y));
        }
    }
}

#[test]
fn block_is_still_life() {
    let w = 8u32;
    let h = 8u32;
    let mut cells = vec![false; (w * h) as usize];
    for (x, y) in [(3u32, 3u32), (4, 3), (3, 4), (4, 4)] {
        cells[(y * w + x) as usize] = true;
    }
    let mut g = GoL::from_cells(w, h, cells);
    for _ in 0..5 {
        g.update(0, 0);
        for y in 0..h {
            for x in 0..w {
                let expect = (3..=4).contains(&x) && (3..=4).contains(&y);
                assert_eq!(g.get(x, y), expect);
            }
        }
    }
}

#[test]
fn torus_counts_every_wrapped_neighbor() {
    // On a 2x2 torus a lone live cell is seen 4 times by its diagonal
    // neighbor (count 4, no birth) and contributes nothing to itself
    // (count 0), so the whole grid dies out in one tick.
    let mut cells = vec![false; 4];
    cells[0] = true;
    let mut g = GoL::from_cells(2, 2, cells);
    g.update(0, 0);
    for y in 0..2 {
        for x in 0..2 {
            assert!(!g.get(x, y));
        }
    }
}

#[test]
fn gol_new_builds_grid() {
    let g = GoL::new(16, 12, 42);
    let mut live = 0u32;
    for y in 0..12 {
        for x in 0..16 {
            if g.get(x, y) {
                live += 1;
            }
        }
    }
    assert!(live <= 16 * 12);
}

#[test]
fn quadtree_insert_then_query_finds_id() {
    let mut qt = Quadtree::new(2, Rectangle { x: 0, y: 0, width: 100, height: 100 });
    assert!(qt.insert(Vec2 { x: 10, y: 10 }, 7));
    let found = qt.query((10, 10, 5));
    assert!(found.contains(&7));
}

#[test]
fn quadtree_insert_outside_fails() {
    let mut qt = Quadtree::new(2, Rectangle { x: 0, y: 0, width: 100, height: 100 });
    assert!(!qt.insert(Vec2 { x: 200, y: 50 }, 1));
    assert!(!qt.insert(Vec2 { x: -1, y: 50 }, 2));
    assert!(qt.query((50, 50, 100)).is_empty());
}

#[test]
fn quadtree_subdivides_and_keeps_points() {
    let mut qt = Quadtree::new(2, Rectangle { x: 0, y: 0, width: 100, height: 100 });
    let pts = [(10i64, 10i64), (90, 10), (10, 90), (90, 90), (50, 50), (12, 13)];
    for (i, (x, y)) in pts.iter().enumerate() {
        assert!(qt.insert(Vec2 { x: *x, y: *y }, i));
    }
    let found = qt.query((50, 50, 100));
    for i in 0..pts.len() {
        assert!(found.contains(&i), "id {} missing", i);
    }
}

#[test]
fn quadtree_zero_radius_is_exact() {
    let mut qt = Quadtree::new(2, Rectangle { x: 0, y: 0, width: 100, height: 100 });
    assert!(qt.insert(Vec2 { x: 10, y: 10 }, 0));
    assert!(qt.insert(Vec2 { x: 11, y: 10 }, 1));
    let found = qt.query((10, 10, 0));
    assert!(found.contains(&0));
    assert!(!found.contains(&1));
}

#[test]
fn sand_falls_to_floor_and_rests() {
    let mut fs = FallingSand::empty(10, 10, 1, true);
    fs.insert_tile(Tile { x: 2, y: 5, id: 1 });
    for expected_y in (0..5).rev() {
        fs.update();
        assert_eq!(fs.tile_count(), 1);
        let t = fs.tile(0);
        assert_eq!((t.x, t.y, t.id), (2, expected_y, 1));
    }
    fs.update();
    let t = fs.tile(0);
    assert_eq!((t.x, t.y, t.id), (2, 0, 1));
}

#[test]
fn swap_moves_tile_and_updates_map() {
    let mut ts = TileStorage::new(4, 4);
    ts.insert(Tile { x: 1, y: 1, id: 1 });
    ts.insert(Tile { x: 1, y: 0, id: 2 });
    ts.swap((1, 1), (1, 0));
    let sand = ts.get(1, 0).unwrap();
    assert_eq!((sand.x, sand.y, sand.id), (1, 0, 1));
    let water = ts.get(1, 1).unwrap();
    assert_eq!((water.x, water.y, water.id), (1, 1, 2));
    // A target off the grid leaves everything unchanged.
    ts.swap((1, 0), (1, -1));
    let sand2 = ts.get(1, 0).unwrap();
    assert_eq!((sand2.x, sand2.y, sand2.id), (1, 0, 1));
    // Moving onto an empty cell leaves the source empty.
    ts.swap((1, 1), (2, 1));
    assert!(ts.get(1, 1).is_none());
    let moved = ts.get(2, 1).unwrap();
    assert_eq!((moved.x, moved.y, moved.id), (2, 1, 2));
}

#[test]
fn sand_sinks_through_water() {
    let mut fs = FallingSand::empty(10, 10, 3, true);
    fs.insert_tile(Tile { x: 4, y: 3, id: 1 });
    fs.insert_tile(Tile { x: 4, y: 2, id: 2 });
    fs.update();
    // The sand swapped with the water below it.
    let below = fs.get(4, 2).unwrap();
    assert_eq!(below.id, 1);
}

#[test]
fn falling_sand_new_seeds_valid_tiles() {
    let fs = FallingSand::new(12, 9, 99);
    for i in 0..fs.tile_count() {
        let t = fs.tile(i);
        assert!(t.x < 12 && t.y < 9);
        assert_eq!(t.id, 1);
        let at = fs.get(t.x as i32, t.y as i32).unwrap();
        assert_eq!((at.x, at.y, at.id), (t.x, t.y, t.id));
    }
}

#[test]
fn edge_wrap_repositions_past_margin() {
    let mut b = test_boid();
    b.position = Vec2 { x: 812, y: 100 };
    b.edges(800, 600);
    assert_eq!(b.position.x, -11);
    assert_eq!(b.position.y, 100);
    b.position = Vec2 { x: -12, y: -20 };
    b.edges(800, 600);
    assert_eq!(b.position.x, 811);
    assert_eq!(b.position.y, 611);
}

#[test]
fn set_mag_rescales_exactly() {
    let b = test_boid();
    let r = b.setMag(10, &Vec2 { x: 3, y: 4 });
    assert_eq!((r.x, r.y), (6, 8));
    let z = b.setMag(10, &Vec2 { x: 0, y: 0 });
    assert_eq!((z.x, z.y), (0, 0));
}

#[test]
fn limit_caps_only_fast_vectors() {
    let b = test_boid();
    let kept = b.limit(&Vec2 { x: 3, y: 4 }, 5);
    assert_eq!((kept.x, kept.y), (3, 4));
    let capped = b.limit(&Vec2 { x: 30, y: 40 }, 5);
    assert_eq!((capped.x, capped.y), (3, 4));
}

#[test]
fn wrapped_distance_folds_across_the_torus() {
    let d = playground::flock::wrapped_distance(
        Vec2 { x: 0, y: 0 },
        Vec2 { x: 3, y: 4 },
        800,
        600,
    );
    assert_eq!(d, 5);
    // A separation beyond the width folds back by it.
    let far = playground::flock::wrapped_distance(
        Vec2 { x: 0, y: 0 },
        Vec2 { x: 900, y: 0 },
        800,
        600,
    );
    assert_eq!(far, 100);
}
