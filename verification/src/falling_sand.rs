//! Falling-sand tile simulation: a sparse set of typed tiles over a bounded
//! grid, with a position-indexed map granting O(1) occupancy lookups and
//! O(1) relocation by swapping map entries — tiles never move within the
//! backing list, only their stored coordinates and the map pointers change.

use vstd::prelude::*;

verus! {

use crate::encoders::FlatEncoder;
use crate::encoders::flat_in_bounds;
use crate::rng::coin_flip;
use crate::rng::rand_below;
use crate::rng::rng_from_seed;

/// Largest accepted grid side; keeps the flat index inside `u32`.
pub const FS_MAX_DIM: u32 = 46000;

/// Number of ticks during which the fluid source at the top row spawns.
pub const SPAWN_TICKS: u32 = 1000;

/// Material of the granular tiles ("sand").
pub const GRANULAR_ID: u8 = 1;

/// Material of the fluid tiles ("water"). Material 0 means empty and is
/// never stored as a tile.
pub const FLUID_ID: u8 = 2;

/// A stored tile: grid cell plus material. Material 0 is never stored.
#[derive(Clone, Copy, Debug, PartialEq, Eq, Structural)]
pub struct Tile {
    pub x: u32,
    pub y: u32,
    pub id: u8,
}

/// The tile list and map after relocating the occupant of `from` to `to`
/// on a `w` by `h` grid: a target off the grid or equal to the source
/// changes nothing; otherwise the two cells' map entries are exchanged,
/// the moving tile takes the target coordinates, and a displaced occupant
/// takes the source's.
pub open spec fn swap_views_v(
    tiles: Seq<Tile>,
    map: Seq<Option<usize>>,
    w: int,
    h: int,
    from: (int, int),
    to: (int, int),
) -> (Seq<Tile>, Seq<Option<usize>>) {
    if !flat_in_bounds(to.0, to.1, w, h) {
        (tiles, map)
    } else {
        let oi = from.1 * w + from.0;
        let ni = to.1 * w + to.0;
        if oi == ni {
            (tiles, map)
        } else {
            let moving = map[oi]->0 as int;
            let t = tiles[moving];
            let tiles1 = tiles.update(moving, Tile { x: to.0 as u32, y: to.1 as u32, id: t.id });
            let tiles2 = (match map[ni] {
                Some(o) => tiles1.update(
                    o as int,
                    Tile { x: from.0 as u32, y: from.1 as u32, id: tiles[o as int].id },
                ),
                None => tiles1,
            });
            (tiles2, map.update(oi, map[ni]).update(ni, map[oi]))
        }
    }
}

/// The tile occupying cell `(x, y)` of a tile list and cell map over a
/// `w` by `h` grid, if any; off-grid cells hold none.
pub open spec fn tile_at_v(
    tiles: Seq<Tile>,
    map: Seq<Option<usize>>,
    w: int,
    h: int,
    x: int,
    y: int,
) -> Option<Tile> {
    if flat_in_bounds(x, y, w, h) && map[y * w + x] is Some {
        Some(tiles[map[y * w + x]->0 as int])
    } else {
        None
    }
}

/// Dense tile list plus a parallel cell-to-index map.
pub struct TileStorage {
    encoder: FlatEncoder,
    tiles: Vec<Tile>,
    tilemap: Vec<Option<usize>>,
}

impl TileStorage {
    pub closed spec fn width(self) -> int {
        self.encoder.dimensions.0 as int
    }

    pub closed spec fn height(self) -> int {
        self.encoder.dimensions.1 as int
    }

    /// The tile list, in insertion order; indices into it are stable.
    pub closed spec fn tiles_seq(self) -> Seq<Tile> {
        self.tiles@
    }

    /// The cell-to-tile-index map, flat and row-major.
    pub closed spec fn map_seq(self) -> Seq<Option<usize>> {
        self.tilemap@
    }

    /// Flat index of cell `(x, y)`.
    pub open spec fn cell_index(self, x: int, y: int) -> int {
        y * self.width() + x
    }

    /// Well-formedness: every stored tile is on the grid with a nonzero
    /// material, its cell points back at it, and every occupied map entry
    /// indexes a tile lying exactly on that cell.
    pub open spec fn wf(self) -> bool {
        &&& 1 <= self.width() <= FS_MAX_DIM
        &&& 1 <= self.height() <= FS_MAX_DIM
        &&& self.map_seq().len() == self.width() * self.height()
        &&& forall|i: int|
            0 <= i < self.tiles_seq().len() ==> {
                let t = #[trigger] self.tiles_seq()[i];
                &&& flat_in_bounds(t.x as int, t.y as int, self.width(), self.height())
                &&& t.id != 0
                &&& self.map_seq()[self.cell_index(t.x as int, t.y as int)] is Some
                &&& self.map_seq()[self.cell_index(t.x as int, t.y as int)]->0 as int == i
            }
        &&& forall|m: int|
            0 <= m < self.map_seq().len() && #[trigger] self.map_seq()[m] is Some ==> {
                let i = self.map_seq()[m]->0 as int;
                &&& 0 <= i < self.tiles_seq().len()
                &&& self.cell_index(
                    self.tiles_seq()[i].x as int,
                    self.tiles_seq()[i].y as int,
                ) == m
            }
    }

    /// The tile occupying cell `(x, y)`, if any; off-grid cells hold none.
    pub open spec fn tile_at(self, x: int, y: int) -> Option<Tile> {
        tile_at_v(self.tiles_seq(), self.map_seq(), self.width(), self.height(), x, y)
    }

    pub fn new(width: u32, height: u32) -> (r: Self)
        requires
            1 <= width <= FS_MAX_DIM,
            1 <= height <= FS_MAX_DIM,
        ensures
            r.wf(),
            r.width() == width,
            r.height() == height,
            r.tiles_seq().len() == 0,
            forall|x: int, y: int| r.tile_at(x, y) is None,
    {
        proof {
            assert((width as int) * (height as int) <= 2116000000) by (nonlinear_arith)
                requires
                    width as int <= 46000,
                    height as int <= 46000,
            ;
        }
        let total = (width as u64 * height as u64) as usize;
        let mut tilemap = Vec::<Option<usize>>::new();
        let mut i: usize = 0;
        while i < total
            invariant
                i <= total,
                tilemap@.len() == i,
                forall|j: int| 0 <= j < i ==> tilemap@[j] is None,
            decreases total - i,
        {
            tilemap.push(None);
            i = i + 1;
        }
        let r = TileStorage {
            encoder: FlatEncoder { dimensions: (width, height) },
            tiles: Vec::new(),
            tilemap,
        };
        proof {
            r.lemma_dims();
            assert forall|x: int, y: int| r.tile_at(x, y) is None by {
                if flat_in_bounds(x, y, r.width(), r.height()) {
                    assert(0 <= r.cell_index(x, y) < r.map_seq().len());
                }
            }
        }
        r
    }

    /// Number of stored tiles.
    pub fn len(&self) -> (r: usize)
        ensures
            r == self.tiles_seq().len(),
    {
        self.tiles.len()
    }

    /// The tile at list position `i`.
    pub fn tile(&self, i: usize) -> (r: Tile)
        requires
            i < self.tiles_seq().len(),
        ensures
            r == self.tiles_seq()[i as int],
    {
        self.tiles[i]
    }

    /// The tile occupying cell `(x, y)`; `None` both for an empty cell and
    /// for coordinates off the grid.
    pub fn get(&self, x: i32, y: i32) -> (r: Option<Tile>)
        requires
            self.wf(),
        ensures
            r == self.tile_at(x as int, y as int),
    {
        proof {
            self.lemma_dims();
        }
        let mut result = None;
        if let Some(map_index) = self.encoder.encode(x, y) {
            proof {
                assert(0 <= self.cell_index(x as int, y as int) < self.map_seq().len());
            }
            if let Some(tile_index) = self.tilemap[map_index] {
                result = Some(self.tiles[tile_index]);
            }
        }
        result
    }

    /// Arithmetic facts every method needs about the grid bounds.
    proof fn lemma_dims(self)
        requires
            1 <= self.width() <= FS_MAX_DIM,
            1 <= self.height() <= FS_MAX_DIM,
        ensures
            self.width() * self.height() <= 2116000000,
            forall|x: int, y: int|
                flat_in_bounds(x, y, self.width(), self.height()) ==> 0 <= #[trigger] self
                    .cell_index(x, y) < self.width() * self.height(),
    {
        let w = self.width();
        let h = self.height();
        assert(w * h <= 2116000000) by (nonlinear_arith)
            requires
                1 <= w <= 46000,
                1 <= h <= 46000,
        ;
        assert forall|x: int, y: int| flat_in_bounds(x, y, w, h) implies 0 <= #[trigger] self
            .cell_index(x, y) < w * h by {
            assert(0 <= y * w + x < w * h) by (nonlinear_arith)
                requires
                    0 <= x < w,
                    0 <= y < h,
            ;
        }
    }

    /// Distinct in-bounds cells have distinct flat indices.
    proof fn lemma_index_injective(self, x1: int, y1: int, x2: int, y2: int)
        requires
            flat_in_bounds(x1, y1, self.width(), self.height()),
            flat_in_bounds(x2, y2, self.width(), self.height()),
            (x1, y1) != (x2, y2),
        ensures
            self.cell_index(x1, y1) != self.cell_index(x2, y2),
    {
        let w = self.width();
        assert(y1 * w + x1 != y2 * w + x2) by (nonlinear_arith)
            requires
                0 <= x1 < w,
                0 <= x2 < w,
                !(x1 == x2 && y1 == y2),
        ;
    }

    /// Store a fresh tile on an empty in-range cell.
    pub fn insert(&mut self, tile: Tile)
        requires
            old(self).wf(),
            flat_in_bounds(tile.x as int, tile.y as int, old(self).width(), old(self).height()),
            tile.id != 0,
            old(self).tile_at(tile.x as int, tile.y as int) is None,
            old(self).tiles_seq().len() < usize::MAX,
        ensures
            final(self).wf(),
            final(self).width() == old(self).width(),
            final(self).height() == old(self).height(),
            final(self).tiles_seq() == old(self).tiles_seq().push(tile),
            final(self).map_seq() == old(self).map_seq().update(
                old(self).cell_index(tile.x as int, tile.y as int),
                Some(old(self).tiles_seq().len() as usize),
            ),
            forall|x: int, y: int|
                #[trigger] final(self).tile_at(x, y) == if x == tile.x as int && y == tile.y as int {
                    Some(tile)
                } else {
                    old(self).tile_at(x, y)
                },
    {
        proof {
            self.lemma_dims();
        }
        let map_index = self.encoder.encode(tile.x as i32, tile.y as i32).unwrap();
        proof {
            assert(0 <= self.cell_index(tile.x as int, tile.y as int) < self.map_seq().len());
        }
        let n = self.tiles.len();
        self.tilemap[map_index] = Some(n);
        self.tiles.push(tile);
        proof {
            let new = *self;
            let prev = *old(self);
            let ci = prev.cell_index(tile.x as int, tile.y as int);
            assert forall|x: int, y: int| #[trigger] new.tile_at(x, y) == if x == tile.x as int && y
                == tile.y as int {
                Some(tile)
            } else {
                prev.tile_at(x, y)
            } by {
                if flat_in_bounds(x, y, new.width(), new.height()) && (x, y) != (
                tile.x as int,
                tile.y as int,
                ) {
                    prev.lemma_index_injective(x, y, tile.x as int, tile.y as int);
                }
            }
            assert forall|m: int|
                0 <= m < new.map_seq().len() && #[trigger] new.map_seq()[m] is Some implies {
                let i = new.map_seq()[m]->0 as int;
                &&& 0 <= i < new.tiles_seq().len()
                &&& new.cell_index(new.tiles_seq()[i].x as int, new.tiles_seq()[i].y as int) == m
            } by {
                if m != ci {
                    assert(prev.map_seq()[m] is Some);
                    assert((prev.map_seq()[m]->0 as int) < prev.tiles_seq().len());
                }
            }
        }
    }

    /// The tile list and map after relocating the occupant of `from` to
    /// `to`: a target off the grid or equal to the source changes nothing;
    /// otherwise the two cells' map entries are exchanged, the moving tile
    /// takes the target coordinates, and a displaced occupant takes the
    /// source's.
    pub open spec fn swap_views(pre: TileStorage, from: (int, int), to: (int, int)) -> (
        Seq<Tile>,
        Seq<Option<usize>>,
    ) {
        swap_views_v(pre.tiles_seq(), pre.map_seq(), pre.width(), pre.height(), from, to)
    }

    /// Relocate the tile on cell `old_coords` to `new_coords` by exchanging
    /// the two cells' map entries; if another tile occupied the target its
    /// coordinates become `old_coords`. A target off the grid makes the call
    /// a no-op. No tile changes its position in the backing list.
    pub fn swap(&mut self, old_coords: (u32, u32), new_coords: (i32, i32))
        requires
            old(self).wf(),
            flat_in_bounds(
                old_coords.0 as int,
                old_coords.1 as int,
                old(self).width(),
                old(self).height(),
            ),
            old(self).tile_at(old_coords.0 as int, old_coords.1 as int) is Some,
        ensures
            final(self).wf(),
            final(self).width() == old(self).width(),
            final(self).height() == old(self).height(),
            final(self).tiles_seq().len() == old(self).tiles_seq().len(),
            forall|i: int|
                0 <= i < old(self).tiles_seq().len() ==> #[trigger] final(self).tiles_seq()[i].id
                    == old(self).tiles_seq()[i].id,
            final(self).tiles_seq() == TileStorage::swap_views(
                *old(self),
                (old_coords.0 as int, old_coords.1 as int),
                (new_coords.0 as int, new_coords.1 as int),
            ).0,
            final(self).map_seq() == TileStorage::swap_views(
                *old(self),
                (old_coords.0 as int, old_coords.1 as int),
                (new_coords.0 as int, new_coords.1 as int),
            ).1,
            !flat_in_bounds(
                new_coords.0 as int,
                new_coords.1 as int,
                old(self).width(),
                old(self).height(),
            ) ==> *final(self) == *old(self),
            flat_in_bounds(
                new_coords.0 as int,
                new_coords.1 as int,
                old(self).width(),
                old(self).height(),
            ) ==> {
                let oc = (old_coords.0 as int, old_coords.1 as int);
                let nc = (new_coords.0 as int, new_coords.1 as int);
                let moved = old(self).tile_at(oc.0, oc.1)->0;
                &&& final(self).tile_at(nc.0, nc.1) == Some(
                    Tile { x: new_coords.0 as u32, y: new_coords.1 as u32, id: moved.id },
                )
                &&& oc != nc ==> final(self).tile_at(oc.0, oc.1) == (match old(self).tile_at(
                    nc.0,
                    nc.1,
                ) {
                    Some(t) => Some(Tile { x: old_coords.0, y: old_coords.1, id: t.id }),
                    None => None,
                })
                &&& forall|x: int, y: int|
                    (x, y) != oc && (x, y) != nc ==> #[trigger] final(self).tile_at(x, y) == old(
                        self,
                    ).tile_at(x, y)
                &&& final(self).tiles_seq()[old(self).map_seq()[old(self).cell_index(
                    oc.0,
                    oc.1,
                )]->0 as int] == Tile {
                    x: new_coords.0 as u32,
                    y: new_coords.1 as u32,
                    id: moved.id,
                }
            },
    {
        proof {
            self.lemma_dims();
        }
        let old_index = self.encoder.encode(old_coords.0 as i32, old_coords.1 as i32).unwrap();
        proof {
            assert(0 <= self.cell_index(old_coords.0 as int, old_coords.1 as int) < self.map_seq().len());
        }
        if let Some(new_index) = self.encoder.encode(new_coords.0, new_coords.1) {
            proof {
                assert(0 <= self.cell_index(new_coords.0 as int, new_coords.1 as int) < self.map_seq().len());
            }
            if new_index != old_index {
                let moving = self.tilemap[old_index].unwrap();
                let other = self.tilemap[new_index];
                self.tilemap[old_index] = other;
                self.tilemap[new_index] = Some(moving);
                let t = self.tiles[moving];
                self.tiles[moving] = Tile {
                    x: new_coords.0 as u32,
                    y: new_coords.1 as u32,
                    id: t.id,
                };
                if let Some(other_index) = other {
                    let t2 = self.tiles[other_index];
                    self.tiles[other_index] = Tile { x: old_coords.0, y: old_coords.1, id: t2.id };
                }
                proof {
                    self.lemma_swap_post(*old(self), old_coords, new_coords);
                }
            } else {
                proof {
                    let prev = *old(self);
                    assert(new_coords.0 as int == old_coords.0 as int && new_coords.1 as int
                        == old_coords.1 as int) by {
                        prev.lemma_dims();
                        if (new_coords.0 as int, new_coords.1 as int) != (
                        old_coords.0 as int,
                        old_coords.1 as int,
                        ) {
                            prev.lemma_index_injective(
                                new_coords.0 as int,
                                new_coords.1 as int,
                                old_coords.0 as int,
                                old_coords.1 as int,
                            );
                        }
                    }
                    let oi = prev.cell_index(old_coords.0 as int, old_coords.1 as int);
                    let moving = prev.map_seq()[oi]->0 as int;
                    let mt = prev.tiles_seq()[moving];
                    assert(prev.cell_index(mt.x as int, mt.y as int) == oi);
                    assert(mt.x as int == old_coords.0 as int && mt.y as int
                        == old_coords.1 as int) by {
                        if (mt.x as int, mt.y as int) != (
                        old_coords.0 as int,
                        old_coords.1 as int,
                        ) {
                            prev.lemma_index_injective(
                                mt.x as int,
                                mt.y as int,
                                old_coords.0 as int,
                                old_coords.1 as int,
                            );
                        }
                    }
                    assert(mt.x == new_coords.0 as u32 && mt.y == new_coords.1 as u32);
                }
            }
        }
    }

    /// The postcondition of a genuine (distinct-cell, on-grid) swap.
    proof fn lemma_swap_post(self, prev: TileStorage, old_coords: (u32, u32), new_coords: (i32, i32))
        requires
            prev.wf(),
            flat_in_bounds(old_coords.0 as int, old_coords.1 as int, prev.width(), prev.height()),
            flat_in_bounds(new_coords.0 as int, new_coords.1 as int, prev.width(), prev.height()),
            prev.tile_at(old_coords.0 as int, old_coords.1 as int) is Some,
            prev.cell_index(new_coords.0 as int, new_coords.1 as int) != prev.cell_index(
                old_coords.0 as int,
                old_coords.1 as int,
            ),
            ({
                let oi = prev.cell_index(old_coords.0 as int, old_coords.1 as int);
                let ni = prev.cell_index(new_coords.0 as int, new_coords.1 as int);
                let moving = prev.map_seq()[oi]->0 as int;
                let moved_tile = Tile {
                    x: new_coords.0 as u32,
                    y: new_coords.1 as u32,
                    id: prev.tiles_seq()[moving].id,
                };
                let tiles1 = prev.tiles_seq().update(moving, moved_tile);
                &&& self.width() == prev.width()
                &&& self.height() == prev.height()
                &&& self.map_seq() == prev.map_seq().update(oi, prev.map_seq()[ni]).update(
                    ni,
                    Some(moving as usize),
                )
                &&& self.tiles_seq() == (match prev.map_seq()[ni] {
                    Some(other) => tiles1.update(
                        other as int,
                        Tile {
                            x: old_coords.0,
                            y: old_coords.1,
                            id: prev.tiles_seq()[other as int].id,
                        },
                    ),
                    None => tiles1,
                })
            }),
        ensures
            self.wf(),
            self.tiles_seq().len() == prev.tiles_seq().len(),
            forall|i: int|
                0 <= i < prev.tiles_seq().len() ==> #[trigger] self.tiles_seq()[i].id
                    == prev.tiles_seq()[i].id,
            ({
                let oc = (old_coords.0 as int, old_coords.1 as int);
                let nc = (new_coords.0 as int, new_coords.1 as int);
                let moved = prev.tile_at(oc.0, oc.1)->0;
                &&& self.tile_at(nc.0, nc.1) == Some(
                    Tile { x: new_coords.0 as u32, y: new_coords.1 as u32, id: moved.id },
                )
                &&& self.tile_at(oc.0, oc.1) == (match prev.tile_at(nc.0, nc.1) {
                    Some(t) => Some(Tile { x: old_coords.0, y: old_coords.1, id: t.id }),
                    None => None,
                })
                &&& forall|x: int, y: int|
                    (x, y) != oc && (x, y) != nc ==> #[trigger] self.tile_at(x, y) == prev.tile_at(
                        x,
                        y,
                    )
                &&& self.tiles_seq()[prev.map_seq()[prev.cell_index(oc.0, oc.1)]->0 as int] == Tile {
                    x: new_coords.0 as u32,
                    y: new_coords.1 as u32,
                    id: moved.id,
                }
            }),
    {
        prev.lemma_dims();
        let oc = (old_coords.0 as int, old_coords.1 as int);
        let nc = (new_coords.0 as int, new_coords.1 as int);
        let oi = prev.cell_index(oc.0, oc.1);
        let ni = prev.cell_index(nc.0, nc.1);
        assert(prev.map_seq()[oi] is Some);
        let moving = prev.map_seq()[oi]->0 as int;
        assert(0 <= moving < prev.tiles_seq().len());
        let mt = prev.tiles_seq()[moving];
        assert(prev.cell_index(mt.x as int, mt.y as int) == oi);
        // The moving tile sat exactly on the source cell.
        assert(mt.x as int == oc.0 && mt.y as int == oc.1) by {
            if (mt.x as int, mt.y as int) != (oc.0, oc.1) {
                prev.lemma_index_injective(mt.x as int, mt.y as int, oc.0, oc.1);
            }
        }
        let other_opt = prev.map_seq()[ni];
        let moved_tile = Tile { x: new_coords.0 as u32, y: new_coords.1 as u32, id: mt.id };
        if other_opt is Some {
            let other = other_opt->0 as int;
            assert(0 <= other < prev.tiles_seq().len());
            let ot = prev.tiles_seq()[other];
            assert(prev.cell_index(ot.x as int, ot.y as int) == ni);
            assert(ot.x as int == nc.0 && ot.y as int == nc.1) by {
                if (ot.x as int, ot.y as int) != (nc.0, nc.1) {
                    prev.lemma_index_injective(ot.x as int, ot.y as int, nc.0, nc.1);
                }
            }
            assert(other != moving);
        }
        // Tiles other than the two involved keep their entries, and their
        // cells are neither of the two swapped ones.
        assert forall|j: int|
            0 <= j < prev.tiles_seq().len() && j != moving && (other_opt is Some ==> j
                != other_opt->0 as int) implies self.tiles_seq()[j] == prev.tiles_seq()[j]
            && prev.cell_index(prev.tiles_seq()[j].x as int, prev.tiles_seq()[j].y as int) != oi
            && prev.cell_index(prev.tiles_seq()[j].x as int, prev.tiles_seq()[j].y as int) != ni
            && self.map_seq()[prev.cell_index(
            prev.tiles_seq()[j].x as int,
            prev.tiles_seq()[j].y as int,
        )] is Some && self.map_seq()[prev.cell_index(
            prev.tiles_seq()[j].x as int,
            prev.tiles_seq()[j].y as int,
        )]->0 as int == j by {
            let tj = prev.tiles_seq()[j];
            let cj = prev.cell_index(tj.x as int, tj.y as int);
            assert(prev.map_seq()[cj] is Some && prev.map_seq()[cj]->0 as int == j);
            if cj == oi {
                assert(moving == j);
            }
            if cj == ni {
                assert(other_opt->0 as int == j);
            }
        }
        // Well-formedness, tile by tile.
        assert forall|i: int| 0 <= i < self.tiles_seq().len() implies {
            let t = #[trigger] self.tiles_seq()[i];
            &&& flat_in_bounds(t.x as int, t.y as int, self.width(), self.height())
            &&& t.id != 0
            &&& self.map_seq()[self.cell_index(t.x as int, t.y as int)] is Some
            &&& self.map_seq()[self.cell_index(t.x as int, t.y as int)]->0 as int == i
        } by {
            if i == moving {
                assert(self.tiles_seq()[i] == moved_tile);
                assert(self.map_seq()[ni] == Some(moving as usize));
            } else if other_opt is Some && i == other_opt->0 as int {
                assert(self.map_seq()[oi] == other_opt);
            } else {
                assert(self.tiles_seq()[i] == prev.tiles_seq()[i]);
            }
        }
        // Well-formedness, map entry by map entry.
        assert forall|m: int|
            0 <= m < self.map_seq().len() && #[trigger] self.map_seq()[m] is Some implies {
            let i = self.map_seq()[m]->0 as int;
            &&& 0 <= i < self.tiles_seq().len()
            &&& self.cell_index(self.tiles_seq()[i].x as int, self.tiles_seq()[i].y as int) == m
        } by {
            if m == oi {
                assert(self.map_seq()[m] == other_opt);
            } else if m == ni {
                assert(self.map_seq()[m] == Some(moving as usize));
            } else {
                assert(self.map_seq()[m] == prev.map_seq()[m]);
                let j = prev.map_seq()[m]->0 as int;
                assert(0 <= j < prev.tiles_seq().len());
                assert(prev.cell_index(prev.tiles_seq()[j].x as int, prev.tiles_seq()[j].y as int)
                    == m);
                assert(j != moving);
                if other_opt is Some {
                    assert(j != other_opt->0 as int);
                }
            }
        }
        assert(self.tile_at(nc.0, nc.1) == Some(moved_tile));
        assert(self.map_seq()[oi] == other_opt);
        // Cells other than the two swapped ones read as before.
        assert forall|x: int, y: int| (x, y) != oc && (x, y) != nc implies #[trigger] self.tile_at(
            x,
            y,
        ) == prev.tile_at(x, y) by {
            if flat_in_bounds(x, y, prev.width(), prev.height()) {
                prev.lemma_index_injective(x, y, oc.0, oc.1);
                prev.lemma_index_injective(x, y, nc.0, nc.1);
            }
        }
    }
}


impl TileStorage {
    /// Grid width as a machine integer.
    pub fn grid_width(&self) -> (r: u32)
        ensures
            r as int == self.width(),
    {
        self.encoder.dimensions.0
    }

    /// Grid height as a machine integer.
    pub fn grid_height(&self) -> (r: u32)
        ensures
            r as int == self.height(),
    {
        self.encoder.dimensions.1
    }
}

/// Whether a horizontal fluid move by `d` from column `x` passes the
/// boundary check.
pub open spec fn fluid_bound_ok(d: int, x: int, w: int) -> bool {
    (d < 0 && x > 0) || (d > 0 && x < w - 1)
}

/// The cell the tile at list position `i` moves to this tick given the
/// tie-break direction `dir`; its own cell when it stays put. Granular
/// tiles sink through fluid below, fall into empty cells below, and slide
/// to an empty or fluid diagonal-down cell; fluid falls when unsupported
/// and otherwise spreads sideways inside the grid walls.
pub open spec fn step_dest(s: TileStorage, i: int, dir: int) -> (int, int) {
    step_dest_v(s.tiles_seq(), s.map_seq(), s.width(), s.height(), i, dir)
}

/// The cell the tile at list position `i` of the given views moves to.
pub open spec fn step_dest_v(
    tiles: Seq<Tile>,
    map: Seq<Option<usize>>,
    w: int,
    h: int,
    i: int,
    dir: int,
) -> (int, int) {
    let t = tiles[i];
    let x = t.x as int;
    let y = t.y as int;
    if y == 0 {
        (x, y)
    } else if t.id == GRANULAR_ID {
        if tile_at_v(tiles, map, w, h, x, y - 1) is Some {
            if tile_at_v(tiles, map, w, h, x, y - 1)->0.id == FLUID_ID {
                (x, y - 1)
            } else if tile_at_v(tiles, map, w, h, x + dir, y - 1) is Some {
                if tile_at_v(tiles, map, w, h, x + dir, y - 1)->0.id == FLUID_ID {
                    (x + dir, y - 1)
                } else {
                    (x, y)
                }
            } else {
                (x + dir, y - 1)
            }
        } else {
            (x, y - 1)
        }
    } else if t.id == FLUID_ID {
        if tile_at_v(tiles, map, w, h, x, y - 1) is Some {
            if tile_at_v(tiles, map, w, h, x + dir, y) is None && fluid_bound_ok(dir, x, w) {
                (x + dir, y)
            } else if tile_at_v(tiles, map, w, h, x - dir, y) is None && fluid_bound_ok(
                -dir,
                x,
                w,
            ) {
                (x - dir, y)
            } else {
                (x, y)
            }
        } else {
            (x, y - 1)
        }
    } else {
        (x, y)
    }
}

/// The tile list and map after one tick's movement rule runs for the tile
/// at list position `i` with tie-break direction `dir`.
pub open spec fn step_views(pre: TileStorage, i: int, dir: int) -> (Seq<Tile>, Seq<Option<usize>>) {
    step_views_v(pre.tiles_seq(), pre.map_seq(), pre.width(), pre.height(), i, dir)
}

/// The views after one tick's movement rule runs on the given views for
/// the tile at list position `i` with tie-break direction `dir`.
pub open spec fn step_views_v(
    tiles: Seq<Tile>,
    map: Seq<Option<usize>>,
    w: int,
    h: int,
    i: int,
    dir: int,
) -> (Seq<Tile>, Seq<Option<usize>>) {
    let t = tiles[i];
    let d = step_dest_v(tiles, map, w, h, i, dir);
    if d == (t.x as int, t.y as int) {
        (tiles, map)
    } else {
        swap_views_v(tiles, map, w, h, (t.x as int, t.y as int), d)
    }
}

/// Apply one tick's movement rule to the tile at list position `i`.
pub fn step_tile(storage: &mut TileStorage, i: usize, dir: i32)
    requires
        old(storage).wf(),
        i < old(storage).tiles_seq().len(),
        dir == 1 || dir == -1,
    ensures
        final(storage).wf(),
        final(storage).width() == old(storage).width(),
        final(storage).height() == old(storage).height(),
        final(storage).tiles_seq().len() == old(storage).tiles_seq().len(),
        forall|j: int|
            0 <= j < old(storage).tiles_seq().len() ==> #[trigger] final(storage).tiles_seq()[j].id
                == old(storage).tiles_seq()[j].id,
        final(storage).tiles_seq() == step_views(*old(storage), i as int, dir as int).0,
        final(storage).map_seq() == step_views(*old(storage), i as int, dir as int).1,
        ({
            let t = old(storage).tiles_seq()[i as int];
            let oc = (t.x as int, t.y as int);
            let d = step_dest(*old(storage), i as int, dir as int);
            &&& d == oc ==> *final(storage) == *old(storage)
            &&& d != oc && !flat_in_bounds(d.0, d.1, old(storage).width(), old(storage).height())
                ==> *final(storage) == *old(storage)
            &&& d != oc && flat_in_bounds(d.0, d.1, old(storage).width(), old(storage).height())
                ==> {
                &&& final(storage).tiles_seq()[i as int] == Tile {
                    x: d.0 as u32,
                    y: d.1 as u32,
                    id: t.id,
                }
                &&& final(storage).tile_at(d.0, d.1) == Some(
                    Tile { x: d.0 as u32, y: d.1 as u32, id: t.id },
                )
                &&& final(storage).tile_at(oc.0, oc.1) == (match old(storage).tile_at(d.0, d.1) {
                    Some(o) => Some(Tile { x: t.x, y: t.y, id: o.id }),
                    None => None,
                })
                &&& forall|x: int, y: int|
                    (x, y) != oc && (x, y) != d ==> #[trigger] final(storage).tile_at(x, y) == old(
                        storage,
                    ).tile_at(x, y)
            }
        }),
{
    let t = storage.tile(i);
    proof {
        assert(storage.tile_at(t.x as int, t.y as int) == Some(t));
    }
    let xi = t.x as i32;
    let yi = t.y as i32;
    if t.y > 0 {
        if t.id == GRANULAR_ID {
            if let Some(below) = storage.get(xi, yi - 1) {
                if below.id == FLUID_ID {
                    storage.swap((t.x, t.y), (xi, yi - 1));
                } else {
                    if let Some(diag) = storage.get(xi + dir, yi - 1) {
                        if diag.id == FLUID_ID {
                            storage.swap((t.x, t.y), (xi + dir, yi - 1));
                        }
                    } else {
                        storage.swap((t.x, t.y), (xi + dir, yi - 1));
                    }
                }
            } else {
                storage.swap((t.x, t.y), (xi, yi - 1));
            }
        } else if t.id == FLUID_ID {
            let w = storage.grid_width();
            if storage.get(xi, yi - 1).is_some() {
                if storage.get(xi + dir, yi).is_none() && ((dir < 0 && t.x > 0) || (dir > 0 && t.x
                    < w - 1)) {
                    storage.swap((t.x, t.y), (xi + dir, yi));
                } else if storage.get(xi - dir, yi).is_none() && ((-dir < 0 && t.x > 0) || (-dir > 0
                    && t.x < w - 1)) {
                    storage.swap((t.x, t.y), (xi - dir, yi));
                }
            } else {
                storage.swap((t.x, t.y), (xi, yi - 1));
            }
        }
    }
}


/// The views after the movement rule has run once per tile, in storage
/// order, with `dirs[k]` the tie-break direction of the `k`-th step.
pub open spec fn run_steps(
    tiles: Seq<Tile>,
    map: Seq<Option<usize>>,
    w: int,
    h: int,
    dirs: Seq<int>,
) -> (Seq<Tile>, Seq<Option<usize>>)
    decreases dirs.len(),
{
    if dirs.len() == 0 {
        (tiles, map)
    } else {
        let p = run_steps(tiles, map, w, h, dirs.drop_last());
        step_views_v(p.0, p.1, w, h, dirs.len() - 1, dirs.last())
    }
}

/// The views after the fluid source scanned one column: when the draw
/// chose column `k`, the column lies on the grid and its top-row cell is
/// empty, a fresh fluid tile is appended there; otherwise nothing changes.
pub open spec fn spawn_views_v(
    tiles: Seq<Tile>,
    map: Seq<Option<usize>>,
    w: int,
    h: int,
    chose: bool,
    k: int,
) -> (Seq<Tile>, Seq<Option<usize>>) {
    let x = SPAWN_OFFSET as int + k;
    let y = h - 1;
    if chose && x < w && tiles.len() < usize::MAX && tile_at_v(tiles, map, w, h, x, y) is None {
        (
            tiles.push(Tile { x: x as u32, y: y as u32, id: FLUID_ID }),
            map.update(y * w + x, Some(tiles.len() as usize)),
        )
    } else {
        (tiles, map)
    }
}

/// The views after the whole spawn scan, `chosen[k]` telling whether the
/// draw picked column `k`.
pub open spec fn run_spawn(
    tiles: Seq<Tile>,
    map: Seq<Option<usize>>,
    w: int,
    h: int,
    chosen: Seq<bool>,
) -> (Seq<Tile>, Seq<Option<usize>>)
    decreases chosen.len(),
{
    if chosen.len() == 0 {
        (tiles, map)
    } else {
        let p = run_spawn(tiles, map, w, h, chosen.drop_last());
        spawn_views_v(p.0, p.1, w, h, chosen.last(), chosen.len() - 1)
    }
}

/// Number of columns the fluid source scans each spawn tick.
pub const SPAWN_WIDTH: u32 = 20;

/// Leftmost column of the fluid source.
pub const SPAWN_OFFSET: u32 = 4;

/// The falling-sand simulation: a tile store, a seeded random source for
/// tie-breaks, and the spawn-phase tick counter.
pub struct FallingSand {
    dimensions: (u32, u32),
    tiles: TileStorage,
    random: rand::rngs::StdRng,
    spawn_count: u32,
}

impl FallingSand {
    pub closed spec fn width(self) -> int {
        self.dimensions.0 as int
    }

    pub closed spec fn height(self) -> int {
        self.dimensions.1 as int
    }

    /// The owned tile store.
    pub closed spec fn storage(self) -> TileStorage {
        self.tiles
    }

    /// How many spawn-phase ticks have run so far.
    pub closed spec fn spawned(self) -> int {
        self.spawn_count as int
    }

    pub open spec fn wf(self) -> bool {
        &&& self.storage().wf()
        &&& self.storage().width() == self.width()
        &&& self.storage().height() == self.height()
    }

    /// Random seeding: roughly a tenth of the cells start as granular tiles.
    pub fn new(width: u32, height: u32, seed: u64) -> (r: Self)
        requires
            1 <= width <= FS_MAX_DIM,
            1 <= height <= FS_MAX_DIM,
        ensures
            r.wf(),
            r.width() == width,
            r.height() == height,
            r.spawned() == 0,
            forall|i: int|
                0 <= i < r.storage().tiles_seq().len() ==> (#[trigger] r.storage().tiles_seq()[i]).id
                    == GRANULAR_ID,
    {
        let mut rng = rng_from_seed(seed);
        let mut tiles = TileStorage::new(width, height);
        let mut y: u32 = 0;
        while y < height
            invariant
                tiles.wf(),
                tiles.width() == width,
                tiles.height() == height,
                1 <= width <= FS_MAX_DIM,
                1 <= height <= FS_MAX_DIM,
                y <= height,
                forall|a: int, b: int| b >= y ==> #[trigger] tiles.tile_at(a, b) is None,
                forall|i: int|
                    0 <= i < tiles.tiles_seq().len() ==> (#[trigger] tiles.tiles_seq()[i]).id
                        == GRANULAR_ID,
            decreases height - y,
        {
            let mut x: u32 = 0;
            while x < width
                invariant
                    tiles.wf(),
                    tiles.width() == width,
                    tiles.height() == height,
                    1 <= width <= FS_MAX_DIM,
                    1 <= height <= FS_MAX_DIM,
                    x <= width,
                    y < height,
                    forall|a: int, b: int| b > y ==> #[trigger] tiles.tile_at(a, b) is None,
                    forall|a: int, b: int|
                        b == y && a >= x ==> #[trigger] tiles.tile_at(a, b) is None,
                    forall|i: int|
                        0 <= i < tiles.tiles_seq().len() ==> (#[trigger] tiles.tiles_seq()[i]).id
                            == GRANULAR_ID,
                decreases width - x,
            {
                if rand_below(&mut rng, 10) == 0 && tiles.len() < usize::MAX {
                    tiles.insert(Tile { x, y, id: GRANULAR_ID });
                }
                x = x + 1;
            }
            y = y + 1;
        }
        FallingSand { dimensions: (width, height), tiles, random: rng, spawn_count: 0 }
    }

    /// An empty grid; with `spawning_done` the fluid source is already
    /// exhausted, so ticks move existing tiles only.
    pub fn empty(width: u32, height: u32, seed: u64, spawning_done: bool) -> (r: Self)
        requires
            1 <= width <= FS_MAX_DIM,
            1 <= height <= FS_MAX_DIM,
        ensures
            r.wf(),
            r.width() == width,
            r.height() == height,
            r.storage().tiles_seq().len() == 0,
            forall|x: int, y: int| r.storage().tile_at(x, y) is None,
            r.spawned() == if spawning_done {
                SPAWN_TICKS as int
            } else {
                0
            },
    {
        let tiles = TileStorage::new(width, height);
        let spawn_count = if spawning_done {
            SPAWN_TICKS
        } else {
            0
        };
        FallingSand { dimensions: (width, height), tiles, random: rng_from_seed(seed), spawn_count }
    }

    /// Place a tile on an empty in-range cell.
    pub fn insert_tile(&mut self, tile: Tile)
        requires
            old(self).wf(),
            flat_in_bounds(tile.x as int, tile.y as int, old(self).width(), old(self).height()),
            tile.id != 0,
            old(self).storage().tile_at(tile.x as int, tile.y as int) is None,
            old(self).storage().tiles_seq().len() < usize::MAX,
        ensures
            final(self).wf(),
            final(self).width() == old(self).width(),
            final(self).height() == old(self).height(),
            final(self).spawned() == old(self).spawned(),
            final(self).storage().tiles_seq() == old(self).storage().tiles_seq().push(tile),
            forall|x: int, y: int|
                #[trigger] final(self).storage().tile_at(x, y) == if x == tile.x as int && y
                    == tile.y as int {
                    Some(tile)
                } else {
                    old(self).storage().tile_at(x, y)
                },
    {
        self.tiles.insert(tile);
    }

    /// Number of stored tiles.
    pub fn tile_count(&self) -> (r: usize)
        ensures
            r == self.storage().tiles_seq().len(),
    {
        self.tiles.len()
    }

    /// The tile at list position `i`.
    pub fn tile(&self, i: usize) -> (r: Tile)
        requires
            i < self.storage().tiles_seq().len(),
        ensures
            r == self.storage().tiles_seq()[i as int],
    {
        self.tiles.tile(i)
    }

    /// The tile occupying cell `(x, y)`, if any.
    pub fn get(&self, x: i32, y: i32) -> (r: Option<Tile>)
        requires
            self.wf(),
        ensures
            r == self.storage().tile_at(x as int, y as int),
    {
        self.tiles.get(x, y)
    }

    /// Advance one tick: during the spawn phase the fluid source drops
    /// tiles onto empty cells of the top row, then every stored tile runs
    /// its movement rule once, in storage order, with a random tie-break.
    #[verifier::loop_isolation(false)]
    pub fn update(&mut self)
        requires
            old(self).wf(),
        ensures
            final(self).wf(),
            final(self).width() == old(self).width(),
            final(self).height() == old(self).height(),
            final(self).spawned() == if old(self).spawned() < SPAWN_TICKS {
                old(self).spawned() + 1
            } else {
                old(self).spawned()
            },
            final(self).storage().tiles_seq().len() >= old(self).storage().tiles_seq().len(),
            final(self).storage().tiles_seq().len() <= old(self).storage().tiles_seq().len()
                + SPAWN_WIDTH,
            old(self).spawned() >= SPAWN_TICKS ==> final(self).storage().tiles_seq().len() == old(self).storage().tiles_seq().len(),
            forall|j: int|
                0 <= j < old(self).storage().tiles_seq().len() ==> #[trigger] final(self).storage().tiles_seq()[j].id == old(self).storage().tiles_seq()[j].id,
            old(self).spawned() >= SPAWN_TICKS ==> exists|dirs: Seq<int>|
                dirs.len() == old(self).storage().tiles_seq().len() && (forall|k: int|
                    0 <= k < dirs.len() ==> (#[trigger] dirs[k]) == 1 || dirs[k] == -1) && ({
                    let r = #[trigger] run_steps(
                        old(self).storage().tiles_seq(),
                        old(self).storage().map_seq(),
                        old(self).width(),
                        old(self).height(),
                        dirs,
                    );
                    final(self).storage().tiles_seq() == r.0 && final(self).storage().map_seq()
                        == r.1
                }),
            old(self).spawned() < SPAWN_TICKS ==> exists|chosen: Seq<bool>, dirs: Seq<int>|
                #![trigger run_spawn(
                    old(self).storage().tiles_seq(),
                    old(self).storage().map_seq(),
                    old(self).width(),
                    old(self).height(),
                    chosen,
                ), dirs.len()]
                chosen.len() == SPAWN_WIDTH && ({
                    let m = run_spawn(
                        old(self).storage().tiles_seq(),
                        old(self).storage().map_seq(),
                        old(self).width(),
                        old(self).height(),
                        chosen,
                    );
                    let r = run_steps(m.0, m.1, old(self).width(), old(self).height(), dirs);
                    dirs.len() == m.0.len() && (forall|k: int|
                        0 <= k < dirs.len() ==> (#[trigger] dirs[k]) == 1 || dirs[k] == -1)
                        && final(self).storage().tiles_seq() == r.0
                        && final(self).storage().map_seq() == r.1
                }),
            ({
                let t = old(self).storage().tiles_seq()[0];
                old(self).spawned() >= SPAWN_TICKS && old(self).storage().tiles_seq().len() == 1
                    && t.id == GRANULAR_ID ==> {
                    &&& t.y > 0 ==> final(self).storage().tiles_seq()[0] == Tile {
                        x: t.x,
                        y: (t.y - 1) as u32,
                        id: t.id,
                    }
                    &&& t.y == 0 ==> final(self).storage() == old(self).storage()
                }
            }),
    {
        let ghost prev = *old(self);
        let ghost single = prev.spawned() >= SPAWN_TICKS && prev.storage().tiles_seq().len() == 1
            && prev.storage().tiles_seq()[0].id == GRANULAR_ID;
        let ghost prevst = prev.storage();
        let ghost mut chosen = Seq::<bool>::empty();
        let w = self.dimensions.0;
        let h = self.dimensions.1;
        if self.spawn_count < SPAWN_TICKS {
            self.spawn_count = self.spawn_count + 1;
            let mut point: u32 = 0;
            while point < SPAWN_WIDTH
                invariant
                    self.wf(),
                    self.width() == prev.width(),
                    self.height() == prev.height(),
                    w as int == prev.width(),
                    h as int == prev.height(),
                    self.spawned() == prev.spawned() + 1,
                    point <= SPAWN_WIDTH,
                    self.storage().tiles_seq().len() >= prev.storage().tiles_seq().len(),
                    self.storage().tiles_seq().len() <= prev.storage().tiles_seq().len() + point,
                    forall|j: int|
                        0 <= j < prev.storage().tiles_seq().len() ==> #[trigger] self.storage()
                            .tiles_seq()[j].id == prev.storage().tiles_seq()[j].id,
                    chosen.len() == point as int,
                    self.tiles.tiles_seq() == run_spawn(
                        prevst.tiles_seq(),
                        prevst.map_seq(),
                        prevst.width(),
                        prevst.height(),
                        chosen,
                    ).0,
                    self.tiles.map_seq() == run_spawn(
                        prevst.tiles_seq(),
                        prevst.map_seq(),
                        prevst.width(),
                        prevst.height(),
                        chosen,
                    ).1,
                decreases SPAWN_WIDTH - point,
            {
                let ghost pre_iter = self.tiles;
                let chose = rand_below(&mut self.random, 4) == 0;
                if chose {
                    let x = point + SPAWN_OFFSET;
                    if x < w && self.tiles.len() < usize::MAX {
                        let y = h - 1;
                        if self.tiles.get(x as i32, y as i32).is_none() {
                            self.tiles.insert(Tile { x, y, id: FLUID_ID });
                        }
                    }
                }
                proof {
                    let chosen0 = chosen;
                    chosen = chosen0.push(chose);
                    assert(chosen.drop_last() =~= chosen0);
                    assert(chosen.last() == chose);
                    let sv = spawn_views_v(
                        pre_iter.tiles_seq(),
                        pre_iter.map_seq(),
                        prevst.width(),
                        prevst.height(),
                        chose,
                        point as int,
                    );
                    assert(self.tiles.tiles_seq() == sv.0 && self.tiles.map_seq() == sv.1);
                }
                point = point + 1;
            }
        }
        let ghost mid = *self;
        proof {
            if prev.spawned() >= SPAWN_TICKS {
                assert(mid == prev);
            }
        }
        let ghost mut dirs = Seq::<int>::empty();
        let total = self.tiles.len();
        let mut i: usize = 0;
        while i < total
            invariant
                dirs.len() == i as int,
                forall|k: int| 0 <= k < dirs.len() ==> (#[trigger] dirs[k]) == 1 || dirs[k] == -1,
                self.tiles.tiles_seq() == run_steps(
                    mid.storage().tiles_seq(),
                    mid.storage().map_seq(),
                    mid.width(),
                    mid.height(),
                    dirs,
                ).0,
                self.tiles.map_seq() == run_steps(
                    mid.storage().tiles_seq(),
                    mid.storage().map_seq(),
                    mid.width(),
                    mid.height(),
                    dirs,
                ).1,
                self.wf(),
                self.width() == prev.width(),
                self.height() == prev.height(),
                self.spawned() == mid.spawned(),
                self.random == mid.random || true,
                total == mid.storage().tiles_seq().len(),
                self.storage().tiles_seq().len() == total,
                i <= total,
                forall|j: int|
                    0 <= j < total ==> #[trigger] self.storage().tiles_seq()[j].id
                        == mid.storage().tiles_seq()[j].id,
                single ==> mid == prev,
                single && i == 0 ==> self.storage() == prev.storage(),
                single && i >= 1 ==> ({
                    let t = prev.storage().tiles_seq()[0];
                    &&& t.y > 0 ==> self.storage().tiles_seq()[0] == Tile {
                        x: t.x,
                        y: (t.y - 1) as u32,
                        id: t.id,
                    }
                    &&& t.y == 0 ==> self.storage() == prev.storage()
                }),
            decreases total - i,
        {
            let dir: i32 = if coin_flip(&mut self.random) {
                -1
            } else {
                1
            };
            let ghost before = self.tiles;
            proof {
                if single && i == 0 {
                    let t = prev.storage().tiles_seq()[0];
                    assert(before.tiles_seq()[0] == t);
                    if t.y > 0 {
                        assert(before.tile_at(t.x as int, t.y as int - 1) is None) by {
                            if before.tile_at(t.x as int, t.y as int - 1) is Some {
                                before.lemma_dims();
                                let c2 = before.cell_index(t.x as int, t.y as int - 1);
                                assert(0 <= c2 < before.map_seq().len());
                                let j = before.map_seq()[c2]->0 as int;
                                assert(before.tiles_seq().len() == 1);
                                assert(0 <= j < before.tiles_seq().len());
                                assert(j == 0);
                                assert(before.cell_index(t.x as int, t.y as int) == c2);
                                before.lemma_index_injective(
                                    t.x as int,
                                    t.y as int,
                                    t.x as int,
                                    t.y as int - 1,
                                );
                            }
                        }
                        assert(step_dest(before, 0, dir as int) == (t.x as int, t.y as int - 1));
                    } else {
                        assert(step_dest(before, 0, dir as int) == (t.x as int, t.y as int));
                    }
                }
            }
            step_tile(&mut self.tiles, i, dir);
            proof {
                let dirs0 = dirs;
                dirs = dirs0.push(dir as int);
                assert(dirs.drop_last() =~= dirs0);
                assert(dirs.last() == dir as int);
                let sv = step_views_v(
                    before.tiles_seq(),
                    before.map_seq(),
                    mid.width(),
                    mid.height(),
                    i as int,
                    dir as int,
                );
                assert(self.tiles.tiles_seq() == sv.0 && self.tiles.map_seq() == sv.1);
            }
            i = i + 1;
        }
        proof {
            if prev.spawned() < SPAWN_TICKS {
                assert(chosen.len() == SPAWN_WIDTH as int);
                let m = run_spawn(
                    prevst.tiles_seq(),
                    prevst.map_seq(),
                    prevst.width(),
                    prevst.height(),
                    chosen,
                );
                assert(mid.storage().tiles_seq() == m.0 && mid.storage().map_seq() == m.1);
            }
        }
    }
}

} // verus!
