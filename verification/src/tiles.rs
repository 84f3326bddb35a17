use vstd::prelude::*;
use vstd::arithmetic::div_mod::{
    lemma_div_plus_one, lemma_fundamental_div_mod, lemma_fundamental_div_mod_converse,
    lemma_mod_add_multiples_vanish,
};

verus! {

/// Width and height of a tile, in pixels.
pub const TILE_SIZE: i32 = 32;

/// Fixed-point scale of rock health and fall height: one unit is a sixtieth of a
/// health point or of a pixel, the amount that one tick of a 60 Hz clock works with.
pub const UNITS: i32 = 60;

/// Health of a fresh rock: 100 health points.
pub const TILE_MAX_HEALTH: i32 = 100 * UNITS;

/// Height from which a collapsed rock falls: one tile.
pub const TILE_HEIGHT: i32 = TILE_SIZE * UNITS;

/// How far a falling rock drops per tick: three tiles per second.
pub const FALL_STEP: i32 = 3 * TILE_SIZE;

/// Support that the ground, the map frame and built supports give.
pub const SOLID_SUPPORT: i32 = 3;

/// One kind of tile of the map.
///
/// `health` and `height` of a rock are in fixed-point units (see `UNITS`);
/// `height` is how far the rock still has to fall.
#[derive(Debug, Clone, Copy, PartialEq, Eq, Structural)]
pub enum TileKind {
    Empty,
    Rock { health: i32, support: i32, intrinsic_support: bool, height: i32 },
    Torch,
    Support,
    Border,
    Grinder,
    Jaunter,
}

/// Whether a tile of this kind blocks movement.
pub open spec fn spec_is_solid(t: TileKind) -> bool {
    match t {
        TileKind::Rock { .. } | TileKind::Border | TileKind::Grinder => true,
        _ => false,
    }
}

impl TileKind {
    pub fn is_solid(&self) -> (r: bool)
        ensures
            r == spec_is_solid(*self),
    {
        match self {
            TileKind::Empty | TileKind::Torch | TileKind::Support | TileKind::Jaunter => false,
            TileKind::Rock { .. } | TileKind::Border | TileKind::Grinder => true,
        }
    }
}

/// A fresh, full-health rock that rests in place.
pub open spec fn fresh_rock(intrinsic_support: bool) -> TileKind {
    TileKind::Rock { health: TILE_MAX_HEALTH, support: 0, intrinsic_support, height: 0 }
}

/// The cave that a new map starts with: a disc of radius 5 around tile (10, 10)
/// and the whole row 10.
pub open spec fn carved(x: int, y: int) -> bool {
    (x - 10) * (x - 10) + (y - 10) * (y - 10) < 25 || y == 10
}

/// Whether (x, y) lies on the outer frame of a `w` by `h` map.
pub open spec fn on_frame(w: int, h: int, x: int, y: int) -> bool {
    x == 0 || x == w - 1 || y == 0 || y == h - 1
}

/// The tile at (x, y) of a new `w` by `h` map: a grinder in the middle of the
/// bottom row, a border around the map, the carved cave, and rock elsewhere; a
/// rock that lies right over the cave holds itself up.
pub open spec fn initial_tile(w: int, h: int, x: int, y: int) -> TileKind {
    if x == w / 2 && y == h - 1 {
        TileKind::Grinder
    } else if on_frame(w, h, x, y) {
        TileKind::Border
    } else if carved(x, y) {
        TileKind::Empty
    } else {
        fresh_rock(carved(x, y + 1))
    }
}

/// The tile map, stored row by row: tile (x, y) is at index `y * width + x`.
#[derive(Clone)]
pub struct Tiles {
    pub tiles: Vec<TileKind>,
    pub width: i32,
    pub height: i32,
}

impl View for Tiles {
    type V = Seq<TileKind>;

    open spec fn view(&self) -> Seq<TileKind> {
        self.tiles@
    }
}

fn is_carved(x: i32, y: i32) -> (r: bool)
    ensures
        r == carved(x as int, y as int),
{
    let dx: i64 = x as i64 - 10;
    let dy: i64 = y as i64 - 10;
    if y == 10 {
        return true;
    }
    if -5 < dx && dx < 5 && -5 < dy && dy < 5 {
        assert(0 <= dx * dx < 25 && 0 <= dy * dy < 25) by (nonlinear_arith)
            requires
                -5 < dx < 5,
                -5 < dy < 5,
        ;
        dx * dx + dy * dy < 25
    } else {
        assert(!carved(x as int, y as int)) by (nonlinear_arith)
            requires
                dx == x - 10,
                dy == y - 10,
                y != 10,
                !(-5 < dx && dx < 5 && -5 < dy && dy < 5),
        ;
        false
    }
}

impl Tiles {
    /// The map is well formed: it has tiles, and exactly `width * height` of them.
    pub open spec fn wf(&self) -> bool {
        &&& 0 < self.width
        &&& 0 < self.height
        &&& self.width * self.height <= i32::MAX
        &&& self@.len() == self.width * self.height
    }

    /// The tile at (x, y).
    pub open spec fn tile_at(&self, x: int, y: int) -> TileKind {
        self@[y * self.width + x]
    }

    /// A new `width` by `height` map (see `initial_tile`).
    pub fn new(width: i32, height: i32) -> (r: Tiles)
        requires
            0 < width,
            0 < height,
            width * height <= i32::MAX,
        ensures
            r.wf(),
            r.width == width,
            r.height == height,
            forall|i: int|
                0 <= i < r@.len() ==> #[trigger] r@[i] == initial_tile(
                    width as int,
                    height as int,
                    i % (width as int),
                    i / (width as int),
                ),
    {
        let n: usize = (width * height) as usize;
        let w: usize = width as usize;
        let ghost wi = width as int;
        let ghost hi = height as int;
        let rock = TileKind::Rock {
            health: TILE_MAX_HEALTH,
            support: 0,
            intrinsic_support: false,
            height: 0,
        };
        let mut tiles: Vec<TileKind> = Vec::new();
        let mut i: usize = 0;
        while i < n
            invariant
                i <= n,
                tiles@.len() == i,
                forall|j: int| 0 <= j < i ==> #[trigger] tiles@[j] == rock,
            decreases n - i,
        {
            tiles.push(rock);
            i += 1;
        }

        // Carve the starting cave.
        let mut i: usize = 0;
        while i < n
            invariant
                n == wi * hi,
                w == wi,
                0 < wi,
                n <= i32::MAX,
                i <= n,
                rock == fresh_rock(false),
                tiles@.len() == n,
                forall|j: int|
                    0 <= j < n ==> #[trigger] tiles@[j] == if j < i && carved(j % wi, j / wi) {
                        TileKind::Empty
                    } else {
                        rock
                    },
            decreases n - i,
        {
            proof {
                lemma_fundamental_div_mod(i as int, wi);
                assert((i as int) / wi <= i as int) by (nonlinear_arith)
                    requires
                        i as int == wi * ((i as int) / wi) + (i as int) % wi,
                        0 <= (i as int) % wi,
                        0 < wi,
                        0 <= i,
                ;
            }
            let x = (i % w) as i32;
            let y = (i / w) as i32;
            if is_carved(x, y) {
                tiles.set(i, TileKind::Empty);
            }
            i += 1;
        }

        // Rocks over the cave hold themselves up; the frame becomes border.
        let mut i: usize = 0;
        while i < n
            invariant
                n == wi * hi,
                w == wi,
                wi == width,
                hi == height,
                0 < wi,
                0 < hi,
                n <= i32::MAX,
                i <= n,
                rock == fresh_rock(false),
                tiles@.len() == n,
                forall|j: int|
                    0 <= j < n ==> #[trigger] tiles@[j] == if j < i {
                        if on_frame(wi, hi, j % wi, j / wi) {
                            TileKind::Border
                        } else if carved(j % wi, j / wi) {
                            TileKind::Empty
                        } else {
                            fresh_rock(carved(j % wi, j / wi + 1))
                        }
                    } else if carved(j % wi, j / wi) {
                        TileKind::Empty
                    } else {
                        rock
                    },
            decreases n - i,
        {
            let x = (i % w) as i32;
            let y = (i / w) as i32;
            let ghost ii = i as int;
            proof {
                lemma_fundamental_div_mod(ii, wi);
                assert(ii / wi < hi) by (nonlinear_arith)
                    requires
                        ii == wi * (ii / wi) + ii % wi,
                        0 <= ii % wi,
                        ii < wi * hi,
                        0 < wi,
                ;
                assert(ii / wi <= ii) by (nonlinear_arith)
                    requires
                        ii == wi * (ii / wi) + ii % wi,
                        0 <= ii % wi,
                        0 < wi,
                        0 <= ii,
                ;
            }
            if y < height - 1 {
                proof {
                    assert(ii + wi < n) by (nonlinear_arith)
                        requires
                            ii == wi * (ii / wi) + ii % wi,
                            ii % wi < wi,
                            ii / wi < hi - 1,
                            n == wi * hi,
                    ;
                    lemma_mod_add_multiples_vanish(ii, wi);
                    lemma_div_plus_one(ii, wi);
                    assert((ii + wi) % wi == ii % wi);
                    assert((ii + wi) / wi == ii / wi + 1);
                }
                let over_empty = match tiles[i + w] {
                    TileKind::Empty => true,
                    _ => false,
                };

                if let TileKind::Rock { health, support, height: ht, .. } = tiles[i] {
                    tiles.set(
                        i,
                        TileKind::Rock {
                            health,
                            support,
                            intrinsic_support: over_empty,
                            height: ht,
                        },
                    );
                }
            }
            if x == 0 || x == width - 1 || y == 0 || y == height - 1 {
                tiles.set(i, TileKind::Border);
            }
            i += 1;
        }

        // The grinder sits in the middle of the bottom row.
        proof {
            assert(wi <= n) by (nonlinear_arith)
                requires
                    n == wi * hi,
                    0 < hi,
                    0 < wi,
            ;
        }
        let g: usize = n - w + w / 2;
        proof {
            assert(n - wi == (hi - 1) * wi) by (nonlinear_arith)
                requires
                    n == wi * hi,
            ;
            assert(n - wi == wi * (hi - 1)) by (nonlinear_arith)
                requires
                    n == wi * hi,
            ;
            lemma_fundamental_div_mod_converse(g as int, wi, hi - 1, wi / 2);
        }
        tiles.set(g, TileKind::Grinder);
        assert forall|j: int| 0 <= j < n implies #[trigger] tiles@[j] == initial_tile(
            wi,
            hi,
            j % wi,
            j / wi,
        ) by {
            lemma_fundamental_div_mod(j, wi);
            assert(j / wi < hi) by (nonlinear_arith)
                requires
                    j == wi * (j / wi) + j % wi,
                    0 <= j % wi,
                    j < wi * hi,
                    0 < wi,
            ;
            if j != g {
                assert(!(j % wi == wi / 2 && j / wi == hi - 1));
            }
        }
        Tiles { tiles, width, height }
    }

    /// Whether (x, y) names a tile of the map.
    pub open spec fn in_bounds(&self, x: int, y: int) -> bool {
        0 <= x < self.width && 0 <= y < self.height
    }

    /// The index of tile (x, y), if it lies on the map.
    pub fn get_tile_idx(&self, x: i32, y: i32) -> (r: Option<usize>)
        requires
            self.wf(),
        ensures
            (r is Some) == self.in_bounds(x as int, y as int),
            r matches Some(i) ==> i == y * self.width + x && i < self@.len(),
    {
        if x < 0 || x >= self.width || y < 0 || y >= self.height {
            None
        } else {
            proof {
                lemma_index_in_bounds(self.width as int, self.height as int, x as int, y as int);
            }
            Some(y as usize * self.width as usize + x as usize)
        }
    }

    /// The kind of tile (x, y); outside the map everything is empty.
    pub fn get_tile_kind(&self, x: i32, y: i32) -> (r: TileKind)
        requires
            self.wf(),
        ensures
            r == if self.in_bounds(x as int, y as int) {
                self.tile_at(x as int, y as int)
            } else {
                TileKind::Empty
            },
    {
        match self.get_tile_idx(x, y) {
            Some(idx) => self.tiles[idx],
            None => TileKind::Empty,
        }
    }

    /// Mutable access to tile (x, y), if it lies on the map.
    pub fn get_tile_kind_mut(&mut self, x: i32, y: i32) -> (r: Option<&mut TileKind>)
        requires
            old(self).wf(),
        ensures
            (r is Some) == old(self).in_bounds(x as int, y as int),
            final(self).width == old(self).width,
            final(self).height == old(self).height,
            r is None ==> final(self)@ == old(self)@,
            r matches Some(t) ==> *t == old(self).tile_at(x as int, y as int) && final(self)@
                == old(self)@.update(y * old(self).width + x, *final(t)),
    {
        match self.get_tile_idx(x, y) {
            Some(idx) => Some(&mut self.tiles[idx]),
            None => None,
        }
    }

    /// Where a jaunter at tile (x, y) sends its user: the tile of the next
    /// jaunter (see `is_next_jaunter`). `None` when (x, y) holds no jaunter or
    /// no other jaunter exists.
    pub fn get_next_jaunter(&self, x: i32, y: i32) -> (r: Option<(i32, i32)>)
        requires
            self.wf(),
        ensures
            match r {
                None => !self.in_bounds(x as int, y as int) || self.tile_at(x as int, y as int)
                    != TileKind::Jaunter || forall|j: int|
                    0 <= j < self@.len() && j != y * self.width + x ==> #[trigger] self@[j]
                        != TileKind::Jaunter,
                Some((jx, jy)) => {
                    &&& self.in_bounds(x as int, y as int)
                    &&& self.tile_at(x as int, y as int) == TileKind::Jaunter
                    &&& self.in_bounds(jx as int, jy as int)
                    &&& is_next_jaunter(self@, y * self.width + x, jy * self.width + jx)
                }
            },
    {
        let cur = match self.get_tile_idx(x, y) {
            Some(i) => i,
            None => return None,
        };
        if self.tiles[cur] != TileKind::Jaunter {
            return None;
        }
        let n = self.tiles.len();
        let w = self.width as usize;
        let ghost g = self@;
        let mut k = cur + 1;
        while k < n
            invariant
                self.wf(),
                g == self@,
                n == g.len(),
                w == self.width,
                cur < n,
                cur == y * self.width + x,
                self.in_bounds(x as int, y as int),
                g[cur as int] == TileKind::Jaunter,
                cur + 1 <= k <= n,
                forall|j: int| cur < j < k ==> #[trigger] g[j] != TileKind::Jaunter,
            decreases n - k,
        {
            if self.tiles[k] == TileKind::Jaunter {
                assert forall|j: int|
                    0 <= j < g.len() && j != cur && cyclic_offset(g.len() as int, cur as int, j)
                        < cyclic_offset(g.len() as int, cur as int, k as int) implies #[trigger] g[j]
                    != TileKind::Jaunter by {}
                return Some(self.coords_of(k, cur));
            }
            k += 1;
        }
        let mut k: usize = 0;
        while k < cur
            invariant
                self.wf(),
                g == self@,
                n == g.len(),
                w == self.width,
                cur < n,
                cur == y * self.width + x,
                self.in_bounds(x as int, y as int),
                g[cur as int] == TileKind::Jaunter,
                k <= cur,
                forall|j: int| cur < j < n ==> #[trigger] g[j] != TileKind::Jaunter,
                forall|j: int| 0 <= j < k ==> #[trigger] g[j] != TileKind::Jaunter,
            decreases cur - k,
        {
            if self.tiles[k] == TileKind::Jaunter {
                assert forall|j: int|
                    0 <= j < g.len() && j != cur && cyclic_offset(g.len() as int, cur as int, j)
                        < cyclic_offset(g.len() as int, cur as int, k as int) implies #[trigger] g[j]
                    != TileKind::Jaunter by {}
                return Some(self.coords_of(k, cur));
            }
            k += 1;
        }
        None
    }

    /// The coordinates of the tile at index `k`, found walking from `cur`.
    fn coords_of(&self, k: usize, cur: usize) -> (r: (i32, i32))
        requires
            self.wf(),
            k < self@.len(),
        ensures
            self.in_bounds(r.0 as int, r.1 as int),
            r.1 * self.width + r.0 == k,
    {
        let w = self.width as usize;
        proof {
            let wi = self.width as int;
            let ki = k as int;
            lemma_fundamental_div_mod(ki, wi);
            assert(ki / wi < self.height && ki / wi <= ki) by (nonlinear_arith)
                requires
                    ki == wi * (ki / wi) + ki % wi,
                    0 <= ki % wi,
                    ki < wi * self.height,
                    0 < wi,
                    0 <= ki,
            ;
            assert((ki / wi) * wi == wi * (ki / wi)) by (nonlinear_arith);
        }
        ((k % w) as i32, (k / w) as i32)
    }
}

/// How many steps forward from index `from` reach index `to` on a ring of `n` tiles.
pub open spec fn cyclic_offset(n: int, from: int, to: int) -> int {
    if to > from {
        to - from
    } else {
        to - from + n
    }
}

/// `j` is the jaunter that a jaunter at `cur` sends to: the first other jaunter
/// met when walking the tiles forward in index order from `cur`, wrapping around
/// at the end of the map.
pub open spec fn is_next_jaunter(g: Seq<TileKind>, cur: int, j: int) -> bool {
    &&& 0 <= j < g.len()
    &&& j != cur
    &&& g[j] == TileKind::Jaunter
    &&& forall|k: int|
        0 <= k < g.len() && k != cur && cyclic_offset(g.len() as int, cur, k) < cyclic_offset(
            g.len() as int,
            cur,
            j,
        ) ==> #[trigger] g[k] != TileKind::Jaunter
}

/// Tile (x, y) of a `w` by `h` map lies at an index below `w * h`.
pub proof fn lemma_index_in_bounds(w: int, h: int, x: int, y: int)
    requires
        0 <= x < w,
        0 <= y < h,
    ensures
        0 <= y * w + x < w * h,
        (y * w + x) % w == x,
        (y * w + x) / w == y,
{
    assert(0 <= y * w + x < w * h) by (nonlinear_arith)
        requires
            0 <= x < w,
            0 <= y < h,
    ;
    lemma_fundamental_div_mod_converse(y * w + x, w, y, x);
}


/// Rust's remainder (sign of the dividend) of `a` by a positive `d`.
pub open spec fn trunc_rem(a: int, d: int) -> int {
    if a >= 0 {
        a % d
    } else {
        -((-a) % d)
    }
}

/// Rust's division (rounding toward zero) of `a` by a positive `d`.
pub open spec fn trunc_div(a: int, d: int) -> int {
    if a >= 0 {
        a / d
    } else {
        -((-a) / d)
    }
}

/// `v` limited to the range from `lo` to `hi`.
pub open spec fn clamp(v: int, lo: int, hi: int) -> int {
    if v < lo {
        lo
    } else if v > hi {
        hi
    } else {
        v
    }
}

/// The larger of `a` and `b`.
pub open spec fn max(a: int, b: int) -> int {
    if a >= b {
        a
    } else {
        b
    }
}

/// The sprite frame of a tile, at animation tick `anim_tick` (three ticks per
/// second). A rock shows one of four cracked looks (frames 1 to 4), more cracked
/// as it loses health; grinders and jaunters blink between two frames.
pub open spec fn tile_frame(t: TileKind, anim_tick: int) -> int {
    match t {
        TileKind::Empty => 0,
        TileKind::Border => 1,
        TileKind::Rock { health, .. } => 1 + clamp(3 - trunc_div(2 * health - 1500, 3000), 0, 3),
        TileKind::Torch => 5,
        TileKind::Support => 6,
        TileKind::Grinder => 7 + trunc_rem(anim_tick, 2),
        TileKind::Jaunter => 9 + trunc_rem(anim_tick, 2),
    }
}

/// How high above its place a tile is drawn: the remaining fall of a rock.
pub open spec fn tile_draw_height(t: TileKind) -> int {
    match t {
        TileKind::Rock { height, .. } => height as int,
        _ => 0,
    }
}

impl TileKind {
    /// The sprite frame and drawing height (in fixed-point units) of this tile.
    pub fn get_frame_and_height(&self, anim_tick: i32) -> (r: (i32, i32))
        ensures
            r.0 == tile_frame(*self, anim_tick as int),
            r.1 == tile_draw_height(*self),
    {
        match self {
            TileKind::Empty => (0, 0),
            TileKind::Border => (1, 0),
            TileKind::Rock { health, height, .. } => {
                let num_tiles: i64 = 4;
                let a: i64 = 2 * (*health as i64) - 1500;
                let t: i64 = if a >= 0 {
                    a / 3000
                } else {
                    -((-a) / 3000)
                };
                let v: i64 = num_tiles - 1 - t;
                let c: i64 = if v < 0 {
                    0
                } else if v > num_tiles - 1 {
                    num_tiles - 1
                } else {
                    v
                };
                ((1 + c) as i32, *height)
            },
            TileKind::Torch => (5, 0),
            TileKind::Support => (6, 0),
            TileKind::Grinder => (7 + blink(anim_tick), 0),
            TileKind::Jaunter => (9 + blink(anim_tick), 0),
        }
    }
}

/// Rust's `anim_tick % 2`.
fn blink(anim_tick: i32) -> (r: i32)
    ensures
        r == trunc_rem(anim_tick as int, 2),
        -1 <= r <= 1,
{
    let a = anim_tick as i64;
    if a >= 0 {
        (a % 2) as i32
    } else {
        (-((-a) % 2)) as i32
    }
}

/// The support that a tile gives to its neighbours to the right, left and top.
pub open spec fn neighbor_support(t: TileKind) -> int {
    match t {
        TileKind::Rock { support, .. } => support as int,
        TileKind::Support | TileKind::Border => SOLID_SUPPORT as int,
        _ => 0,
    }
}

/// The support that a tile gives diagonally upward; built supports do not count.
pub open spec fn diagonal_support(t: TileKind) -> int {
    match t {
        TileKind::Rock { support, .. } => support as int,
        TileKind::Border => SOLID_SUPPORT as int,
        _ => 0,
    }
}

/// `t` with its support set to `s`, if it is a rock.
pub open spec fn set_support(t: TileKind, s: int) -> TileKind {
    match t {
        TileKind::Rock { health, intrinsic_support, height, .. } => TileKind::Rock {
            health,
            support: s as i32,
            intrinsic_support,
            height,
        },
        _ => t,
    }
}

/// First sweep over the row starting at index `rs`, left to right: the support
/// of the tile in column `x` afterwards. A rock gets the better of the support
/// from below and one less than the support from its left.
pub open spec fn left_pass(g: Seq<TileKind>, w: int, rs: int, x: int) -> int
    decreases x,
{
    match g[rs + x] {
        TileKind::Rock { .. } => {
            let left = if x <= 0 {
                SOLID_SUPPORT as int
            } else {
                left_pass(g, w, rs, x - 1)
            };
            let bottom = if rs + w >= g.len() {
                SOLID_SUPPORT as int
            } else {
                neighbor_support(g[rs + w + x])
            };
            max(left - 1, bottom)
        },
        t => neighbor_support(t),
    }
}

/// Second sweep over the row starting at index `rs`, right to left: the support
/// of the tile in column `x` afterwards. A rock gets the better of its own
/// support (full if it holds itself up) and one less than the support from its
/// right, plus one if both lower diagonal neighbours support it, at most full.
pub open spec fn right_pass(g: Seq<TileKind>, w: int, rs: int, x: int) -> int
    decreases w - x,
{
    match g[rs + x] {
        TileKind::Rock { intrinsic_support, .. } => {
            let right = if x >= w - 1 {
                SOLID_SUPPORT as int
            } else {
                right_pass(g, w, rs, x + 1)
            };
            let own = if intrinsic_support {
                SOLID_SUPPORT as int
            } else {
                left_pass(g, w, rs, x)
            };
            let last_row = rs + w >= g.len();
            let bottom_left = if x <= 0 || last_row {
                SOLID_SUPPORT as int
            } else {
                diagonal_support(g[rs + w + x - 1])
            };
            let bottom_right = if x >= w - 1 || last_row {
                SOLID_SUPPORT as int
            } else {
                diagonal_support(g[rs + w + x + 1])
            };
            let bonus: int = if bottom_left > 0 && bottom_right > 0 {
                1
            } else {
                0
            };
            clamp(max(own, right - 1) + bonus, 0, SOLID_SUPPORT as int)
        },
        t => neighbor_support(t),
    }
}

/// The map after both sweeps over the row starting at index `rs`.
pub open spec fn settle_row(g: Seq<TileKind>, w: int, rs: int) -> Seq<TileKind> {
    Seq::new(
        g.len(),
        |i: int|
            if rs <= i < rs + w {
                set_support(g[i], right_pass(g, w, rs, i - rs))
            } else {
                g[i]
            },
    )
}

/// The map after the support of every row from the one starting at index `rs`
/// down to the bottom row has been worked out, bottom row first.
pub open spec fn settle(g: Seq<TileKind>, w: int, rs: int) -> Seq<TileKind>
    decreases g.len() + w - rs,
{
    if w <= 0 || rs >= g.len() {
        g
    } else {
        settle_row(settle(g, w, rs + w), w, rs)
    }
}

/// A rock with its support in the range from 0 to full; other tiles qualify too.
pub open spec fn support_bounded(t: TileKind) -> bool {
    match t {
        TileKind::Rock { support, .. } => 0 <= support <= SOLID_SUPPORT,
        _ => true,
    }
}


fn neighbor_support_of(t: &TileKind) -> (r: i32)
    ensures
        r == neighbor_support(*t),
{
    match t {
        TileKind::Rock { support, .. } => *support,
        TileKind::Support | TileKind::Border => SOLID_SUPPORT,
        _ => 0,
    }
}

fn diagonal_support_of(t: &TileKind) -> (r: i32)
    ensures
        r == diagonal_support(*t),
{
    match t {
        TileKind::Rock { support, .. } => *support,
        TileKind::Border => SOLID_SUPPORT,
        _ => 0,
    }
}

fn max_i32(a: i32, b: i32) -> (r: i32)
    ensures
        r == max(a as int, b as int),
{
    if a >= b {
        a
    } else {
        b
    }
}

fn clamp_i32(v: i32, lo: i32, hi: i32) -> (r: i32)
    ensures
        r == clamp(v as int, lo as int, hi as int),
{
    if v < lo {
        lo
    } else if v > hi {
        hi
    } else {
        v
    }
}

/// The row below the one starting at `rs` (if any) lies wholly on the map.
pub open spec fn row_fits(n: int, w: int, rs: int) -> bool {
    &&& 0 < w
    &&& 0 <= rs
    &&& rs + w == n || rs + 2 * w <= n
}

/// Every tile from index `from` on has its support in range.
pub open spec fn bounded_from(g: Seq<TileKind>, from: int) -> bool {
    forall|k: int| from <= k < g.len() ==> #[trigger] support_bounded(g[k])
}

proof fn lemma_left_pass_bounded(g: Seq<TileKind>, w: int, rs: int, x: int)
    requires
        0 <= x < w,
        row_fits(g.len() as int, w, rs),
        bounded_from(g, rs + w),
    ensures
        0 <= left_pass(g, w, rs, x) <= SOLID_SUPPORT,
    decreases x,
{
    if x > 0 {
        lemma_left_pass_bounded(g, w, rs, x - 1);
    }
    if rs + w < g.len() {
        assert(support_bounded(g[rs + w + x]));
    }
}

proof fn lemma_right_pass_bounded(g: Seq<TileKind>, w: int, rs: int, x: int)
    requires
        0 <= x < w,
        row_fits(g.len() as int, w, rs),
    ensures
        0 <= right_pass(g, w, rs, x) <= SOLID_SUPPORT,
{
}

impl Tiles {
    /// Works out the support of the row starting at index `rs`.
    fn settle_row(&mut self, rs: usize)
        requires
            old(self).wf(),
            row_fits(old(self)@.len() as int, old(self).width as int, rs as int),
            bounded_from(old(self)@, rs + old(self).width),
        ensures
            final(self).width == old(self).width,
            final(self).height == old(self).height,
            final(self)@ == settle_row(old(self)@, old(self).width as int, rs as int),
    {
        let ghost g = self@;
        let ghost wi = self.width as int;
        let ghost hi = self.height as int;
        let n = self.tiles.len();
        let w = self.width as usize;
        let mut x: usize = 0;
        while x < w
            invariant
                self.wf(),
                g.len() == n,
                self@.len() == n,
                wi == self.width,
                hi == self.height,
                w == wi,
                row_fits(n as int, wi, rs as int),
                bounded_from(g, rs + wi),
                x <= w,
                forall|j: int|
                    0 <= j < n && !(rs <= j < rs + x) ==> #[trigger] self@[j] == g[j],
                forall|j: int|
                    rs <= j < rs + x ==> #[trigger] self@[j] == set_support(
                        g[j],
                        left_pass(g, wi, rs as int, j - rs),
                    ),
            decreases w - x,
        {
            let i = rs + x;
            proof {
                lemma_left_pass_bounded(g, wi, rs as int, x as int);
                if x > 0 {
                    lemma_left_pass_bounded(g, wi, rs as int, x - 1);
                }
            }
            if let TileKind::Rock { health, intrinsic_support, height, .. } = self.tiles[i] {
                let left = if x == 0 {
                    SOLID_SUPPORT
                } else {
                    neighbor_support_of(&self.tiles[i - 1])
                };
                let bottom = if rs + w >= n {
                    SOLID_SUPPORT
                } else {
                    neighbor_support_of(&self.tiles[i + w])
                };
                let s = max_i32(left - 1, bottom);
                self.tiles.set(
                    i,
                    TileKind::Rock { health, support: s, intrinsic_support, height },
                );
            }
            x += 1;
        }
        let mut xr: usize = w;
        while xr > 0
            invariant
                self.wf(),
                g.len() == n,
                self@.len() == n,
                wi == self.width,
                hi == self.height,
                w == wi,
                row_fits(n as int, wi, rs as int),
                bounded_from(g, rs + wi),
                xr <= w,
                forall|j: int|
                    0 <= j < n && !(rs <= j < rs + w) ==> #[trigger] self@[j] == g[j],
                forall|j: int|
                    rs <= j < rs + xr ==> #[trigger] self@[j] == set_support(
                        g[j],
                        left_pass(g, wi, rs as int, j - rs),
                    ),
                forall|j: int|
                    rs + xr <= j < rs + w ==> #[trigger] self@[j] == set_support(
                        g[j],
                        right_pass(g, wi, rs as int, j - rs),
                    ),
            decreases xr,
        {
            xr -= 1;
            let x = xr;
            let i = rs + x;
            proof {
                lemma_left_pass_bounded(g, wi, rs as int, x as int);
                lemma_right_pass_bounded(g, wi, rs as int, x as int);
                if x + 1 < w {
                    lemma_right_pass_bounded(g, wi, rs as int, x + 1);
                }
            }
            if let TileKind::Rock { health, support, intrinsic_support, height } = self.tiles[i] {
                let right = if x == w - 1 {
                    SOLID_SUPPORT
                } else {
                    neighbor_support_of(&self.tiles[i + 1])
                };
                let last_row = rs + w >= n;
                let bottom_left = if x == 0 || last_row {
                    SOLID_SUPPORT
                } else {
                    diagonal_support_of(&self.tiles[i + w - 1])
                };
                let bottom_right = if x == w - 1 || last_row {
                    SOLID_SUPPORT
                } else {
                    diagonal_support_of(&self.tiles[i + w + 1])
                };
                let mut num_supports: i32 = 0;
                if bottom_left > 0 {
                    num_supports += 1;
                }
                if bottom_right > 0 {
                    num_supports += 1;
                }
                let bonus: i32 = if num_supports == 2 {
                    1
                } else {
                    0
                };
                let own = if intrinsic_support {
                    SOLID_SUPPORT
                } else {
                    support
                };
                let s = clamp_i32(max_i32(own, right - 1) + bonus, 0, SOLID_SUPPORT);
                self.tiles.set(
                    i,
                    TileKind::Rock { health, support: s, intrinsic_support, height },
                );
            }
        }
        assert(self@ =~= settle_row(g, wi, rs as int));
    }
}


impl Tiles {
    /// Works out the support of every row, bottom row first.
    fn settle_support(&mut self)
        requires
            old(self).wf(),
        ensures
            final(self).wf(),
            final(self).width == old(self).width,
            final(self).height == old(self).height,
            final(self)@ == settle(old(self)@, old(self).width as int, 0),
            bounded_from(final(self)@, 0),
    {
        let ghost g = self@;
        let ghost wi = self.width as int;
        let ghost hi = self.height as int;
        let n = self.tiles.len();
        let w = self.width as usize;
        let mut next: usize = n;
        let ghost mut row: int = hi;
        while next > 0
            invariant
                self.wf(),
                wi == self.width,
                hi == self.height,
                w == wi,
                n == self@.len(),
                n == g.len(),
                n == wi * hi,
                0 <= row <= hi,
                next == row * wi,
                self@ == settle(g, wi, next as int),
                bounded_from(self@, next as int),
            decreases next,
        {
            proof {
                assert(hi * wi == wi * hi) by (nonlinear_arith);
                assert(row >= 1) by (nonlinear_arith)
                    requires
                        next == row * wi,
                        next > 0,
                        0 < wi,
                        0 <= row,
                ;
                assert((row - 1) * wi == row * wi - wi) by (nonlinear_arith);
                assert(row < hi ==> (row + 1) * wi <= wi * hi) by (nonlinear_arith)
                    requires
                        0 < wi,
                ;
                assert((row + 1) * wi == row * wi + wi) by (nonlinear_arith);
            }
            let rs = next - w;
            let ghost before = self@;
            self.settle_row(rs);
            proof {
                assert forall|k: int| rs <= k < n implies #[trigger] support_bounded(self@[k]) by {
                    if k < next {
                        lemma_right_pass_bounded(before, wi, rs as int, k - rs);
                    }
                }
                row = row - 1;
            }
            next = rs;
        }
    }
}


/// The tile at index `i` is an unsupported rock at rest with a tile below it:
/// it falls into the tile below.
pub open spec fn collapses(s: Seq<TileKind>, w: int, i: int) -> bool {
    &&& 0 <= i
    &&& i + w < s.len()
    &&& match s[i] {
        TileKind::Rock { support, height, .. } => height == 0 && support <= 0,
        _ => false,
    }
}

/// A rock that just fell one tile: it keeps its health, has no support yet and
/// still has a whole tile of height to drop.
pub open spec fn fallen(t: TileKind) -> TileKind {
    match t {
        TileKind::Rock { health, .. } => TileKind::Rock {
            health,
            support: 0,
            intrinsic_support: false,
            height: TILE_HEIGHT,
        },
        _ => t,
    }
}

/// The map after every collapsing rock has moved one tile down, leaving an
/// empty tile behind and crushing what was below it.
pub open spec fn collapse(s: Seq<TileKind>, w: int) -> Seq<TileKind> {
    Seq::new(
        s.len(),
        |i: int|
            if collapses(s, w, i - w) {
                fallen(s[i - w])
            } else if collapses(s, w, i) {
                TileKind::Empty
            } else {
                s[i]
            },
    )
}

/// Where the rocks of the row starting at `rs` land, for its first `x` columns,
/// left to right.
pub open spec fn row_kills(s: Seq<TileKind>, w: int, rs: int, x: int) -> Seq<int>
    decreases x,
{
    if x <= 0 {
        Seq::empty()
    } else {
        row_kills(s, w, rs, x - 1) + if collapses(s, w, rs + x - 1) {
            seq![rs + x - 1 + w]
        } else {
            Seq::empty()
        }
    }
}

/// Where collapsing rocks land (as indices), for the rows from the one starting
/// at `rs` down to the last but one, bottom rows first.
pub open spec fn kills(s: Seq<TileKind>, w: int, rs: int) -> Seq<int>
    decreases s.len() + w - rs,
{
    if w <= 0 || rs + w >= s.len() {
        Seq::empty()
    } else {
        kills(s, w, rs + w) + row_kills(s, w, rs, w)
    }
}

/// The (x, y) coordinates of index `i` on a map `w` tiles wide.
pub open spec fn coords(w: int, i: int) -> (i32, i32) {
    ((i % w) as i32, (i / w) as i32)
}

impl Tiles {
    /// Drops every unsupported rock one tile; returns where they land.
    fn collapse_unsupported(&mut self) -> (kill_pos: Vec<(i32, i32)>)
        requires
            old(self).wf(),
        ensures
            final(self).wf(),
            final(self).width == old(self).width,
            final(self).height == old(self).height,
            final(self)@ == collapse(old(self)@, old(self).width as int),
            kill_pos@ == kills(old(self)@, old(self).width as int, 0).map_values(
                |i: int| coords(old(self).width as int, i),
            ),
    {
        let ghost s = self@;
        let ghost wi = self.width as int;
        let ghost hi = self.height as int;
        let n = self.tiles.len();
        let w = self.width as usize;
        proof {
            assert(wi <= n) by (nonlinear_arith)
                requires
                    n == wi * hi,
                    0 < hi,
                    0 < wi,
            ;
            assert(n - wi == (hi - 1) * wi) by (nonlinear_arith)
                requires
                    n == wi * hi,
            ;
        }
        let mut kill_pos: Vec<(i32, i32)> = Vec::new();
        let mut next: usize = n - w;
        let ghost mut row: int = hi - 1;
        while next > 0
            invariant
                self.wf(),
                wi == self.width,
                hi == self.height,
                w == wi,
                n == self@.len(),
                n == s.len(),
                n == wi * hi,
                0 <= row < hi,
                next == row * wi,
                next + wi <= n,
                forall|j: int|
                    0 <= j < n ==> #[trigger] self@[j] == if j - wi >= next && collapses(
                        s,
                        wi,
                        j - wi,
                    ) {
                        fallen(s[j - wi])
                    } else if j >= next && collapses(s, wi, j) {
                        TileKind::Empty
                    } else {
                        s[j]
                    },
                kill_pos@ == kills(s, wi, next as int).map_values(|i: int| coords(wi, i)),
            decreases next,
        {
            proof {
                assert(row >= 1) by (nonlinear_arith)
                    requires
                        next == row * wi,
                        next > 0,
                        0 < wi,
                        0 <= row,
                ;
                assert((row - 1) * wi == row * wi - wi) by (nonlinear_arith);
            }
            let rs = next - w;
            let mut x: usize = 0;
            while x < w
                invariant
                    self.wf(),
                    wi == self.width,
                    hi == self.height,
                    w == wi,
                    n == self@.len(),
                    n == s.len(),
                    n <= i32::MAX,
                    rs + wi == next,
                    next + wi <= n,
                    x <= w,
                    forall|j: int|
                        0 <= j < n ==> #[trigger] self@[j] == if (j - wi >= next || rs <= j - wi < rs
                            + x) && collapses(s, wi, j - wi) {
                            fallen(s[j - wi])
                        } else if (j >= next || rs <= j < rs + x) && collapses(s, wi, j) {
                            TileKind::Empty
                        } else {
                            s[j]
                        },
                    kill_pos@ == (kills(s, wi, next as int) + row_kills(
                        s,
                        wi,
                        rs as int,
                        x as int,
                    )).map_values(|i: int| coords(wi, i)),
                decreases w - x,
            {
                let i = rs + x;
                if let TileKind::Rock { health, support, height, .. } = self.tiles[i] {
                    if height == 0 && support <= 0 {
                        self.tiles.set(i, TileKind::Empty);
                        self.tiles.set(
                            i + w,
                            TileKind::Rock {
                                health,
                                support: 0,
                                intrinsic_support: false,
                                height: TILE_HEIGHT,
                            },
                        );
                        let k = i + w;
                        proof {
                            assert((k as int) / wi <= k as int) by (nonlinear_arith)
                                requires
                                    0 < wi,
                                    0 <= k,
                            ;
                        }
                        kill_pos.push(((k % w) as i32, (k / w) as i32));
                    }
                }
                proof {
                    let ghost ks = kills(s, wi, next as int);
                    assert((ks + row_kills(s, wi, rs as int, x + 1)).map_values(
                        |i: int| coords(wi, i),
                    ) =~= kill_pos@);
                }
                x += 1;
            }
            proof {
                assert(kills(s, wi, rs as int) == kills(s, wi, next as int) + row_kills(
                    s,
                    wi,
                    rs as int,
                    wi,
                ));
                row = row - 1;
            }
            next = rs;
        }
        assert(self@ =~= collapse(s, wi));
        kill_pos
    }
}


/// The remaining fall height after one tick.
pub open spec fn fall_height(h: int) -> int {
    if h > 0 {
        max(0, h - FALL_STEP)
    } else {
        h
    }
}

/// A tile after one tick of falling and crumbling: a falling rock drops a bit,
/// and a rock with negative health turns to rubble (an empty tile).
pub open spec fn fall_tile(t: TileKind) -> TileKind {
    match t {
        TileKind::Rock { health, support, intrinsic_support, height } => if health < 0 {
            TileKind::Empty
        } else {
            TileKind::Rock {
                health,
                support,
                intrinsic_support,
                height: fall_height(height as int) as i32,
            }
        },
        _ => t,
    }
}

/// A falling, supported rock that comes to rest in this tick.
pub open spec fn lands(t: TileKind) -> bool {
    match t {
        TileKind::Rock { support, height, .. } => height > 0 && fall_height(height as int) == 0
            && support != 0,
        _ => false,
    }
}

/// The indices below `i` whose rock comes to rest this tick, in order.
pub open spec fn landings(m: Seq<TileKind>, i: int) -> Seq<int>
    decreases i,
{
    if i <= 0 {
        Seq::empty()
    } else {
        landings(m, i - 1) + if lands(m[i - 1]) {
            seq![i - 1]
        } else {
            Seq::empty()
        }
    }
}

/// The map after collapses, before falling rocks drop.
pub open spec fn collapsed_map(g: Seq<TileKind>, w: int) -> Seq<TileKind> {
    collapse(settle(g, w, 0), w)
}

/// The map after one tick of `Tiles::logic`: supports are worked out, unsupported
/// rocks collapse, then falling rocks drop and broken rocks crumble.
pub open spec fn tiles_after_logic(g: Seq<TileKind>, w: int) -> Seq<TileKind> {
    let m = collapsed_map(g, w);
    Seq::new(m.len(), |i: int| fall_tile(m[i]))
}

/// What happened during one tick of `Tiles::logic`, as tile coordinates.
pub struct TileEvents {
    /// Where collapsing rocks landed, in the order they fell (rows from the
    /// bottom up, each row left to right).
    pub collapsed: Vec<(i32, i32)>,
    /// Where supported falling rocks came to rest, in index order.
    pub landed: Vec<(i32, i32)>,
}

impl Tiles {
    /// One tick of dropping falling rocks and crumbling broken ones.
    fn drop_falling(&mut self) -> (landed: Vec<(i32, i32)>)
        requires
            old(self).wf(),
        ensures
            final(self).wf(),
            final(self).width == old(self).width,
            final(self).height == old(self).height,
            final(self)@ == Seq::new(old(self)@.len(), |i: int| fall_tile(old(self)@[i])),
            landed@ == landings(old(self)@, old(self)@.len() as int).map_values(
                |i: int| coords(old(self).width as int, i),
            ),
    {
        let ghost m = self@;
        let ghost wi = self.width as int;
        let ghost hi = self.height as int;
        let n = self.tiles.len();
        let w = self.width as usize;
        let mut landed: Vec<(i32, i32)> = Vec::new();
        let mut i: usize = 0;
        while i < n
            invariant
                self.wf(),
                wi == self.width,
                hi == self.height,
                w == wi,
                n == self@.len(),
                n == m.len(),
                i <= n,
                forall|j: int|
                    0 <= j < n ==> #[trigger] self@[j] == if j < i {
                        fall_tile(m[j])
                    } else {
                        m[j]
                    },
                landed@ == landings(m, i as int).map_values(|k: int| coords(wi, k)),
            decreases n - i,
        {
            if let TileKind::Rock { health, support, intrinsic_support, height } = self.tiles[i] {
                let mut new_height = height;
                if height > 0 {
                    new_height = max_i32(0, height - FALL_STEP);
                    if new_height == 0 && support != 0 {
                        proof {
                            assert((i as int) / wi <= i as int) by (nonlinear_arith)
                                requires
                                    0 < wi,
                                    0 <= i,
                            ;
                        }
                        landed.push(((i % w) as i32, (i / w) as i32));
                    }
                }
                if health < 0 {
                    self.tiles.set(i, TileKind::Empty);
                } else {
                    self.tiles.set(
                        i,
                        TileKind::Rock { health, support, intrinsic_support, height: new_height },
                    );
                }
            }
            proof {
                assert(landings(m, i + 1).map_values(|k: int| coords(wi, k)) =~= landed@);
            }
            i += 1;
        }
        assert(self@ =~= Seq::new(m.len(), |i: int| fall_tile(m[i])));
        landed
    }

    /// One tick of the map: works out how well every rock is supported, lets
    /// unsupported rocks collapse one tile, drops falling rocks and clears rocks
    /// whose health fell below zero. Returns where rocks collapsed to and where
    /// falling rocks came to rest.
    pub fn logic(&mut self) -> (events: TileEvents)
        requires
            old(self).wf(),
        ensures
            final(self).wf(),
            final(self).width == old(self).width,
            final(self).height == old(self).height,
            final(self)@ == tiles_after_logic(old(self)@, old(self).width as int),
            events.collapsed@ == kills(settle(old(self)@, old(self).width as int, 0), old(self).width as int, 0).map_values(
                |i: int| coords(old(self).width as int, i),
            ),
            events.landed@ == landings(
                collapsed_map(old(self)@, old(self).width as int),
                old(self)@.len() as int,
            ).map_values(|i: int| coords(old(self).width as int, i)),
    {
        self.settle_support();
        let collapsed = self.collapse_unsupported();
        let landed = self.drop_falling();
        TileEvents { collapsed, landed }
    }
}


/// Working out supports changes nothing but the supports of rocks.
proof fn lemma_settle_keeps_kinds(g: Seq<TileKind>, w: int, rs: int)
    ensures
        settle(g, w, rs).len() == g.len(),
        forall|i: int|
            0 <= i < g.len() ==> #[trigger] settle(g, w, rs)[i] == set_support(
                g[i],
                neighbor_support(settle(g, w, rs)[i]),
            ),
    decreases g.len() + w - rs,
{
    if w <= 0 || rs >= g.len() {
        assert forall|i: int| 0 <= i < g.len() implies #[trigger] settle(g, w, rs)[i]
            == set_support(g[i], neighbor_support(settle(g, w, rs)[i])) by {
            match g[i] {
                TileKind::Rock { .. } => {},
                _ => {},
            }
        }
    } else {
        lemma_settle_keeps_kinds(g, w, rs + w);
        let inner = settle(g, w, rs + w);
        assert forall|i: int| 0 <= i < g.len() implies #[trigger] settle(g, w, rs)[i]
            == set_support(g[i], neighbor_support(settle(g, w, rs)[i])) by {
            assert(inner[i] == set_support(g[i], neighbor_support(inner[i])));
            match g[i] {
                TileKind::Rock { .. } => {},
                _ => {},
            }
        }
    }
}

/// Rows already worked out stay as they are while the rows above are done.
proof fn lemma_settle_stable(g: Seq<TileKind>, w: int, r1: int, r2: int, k: int)
    requires
        0 < w,
        0 <= r1 <= r2,
        r2 * w <= k < g.len(),
    ensures
        settle(g, w, r1 * w)[k] == settle(g, w, r2 * w)[k],
    decreases r2 - r1,
{
    if r1 < r2 {
        assert((r1 + 1) * w == r1 * w + w) by (nonlinear_arith);
        assert(r1 * w + w <= r2 * w) by (nonlinear_arith)
            requires
                r1 < r2,
                0 < w,
        ;
        lemma_settle_stable(g, w, r1 + 1, r2, k);
        lemma_settle_keeps_kinds(g, w, r1 * w + w);
    }
}

/// After supports are worked out from the row starting at `r * w` down, all
/// those rows have their supports in range.
proof fn lemma_settle_bounded(g: Seq<TileKind>, w: int, h: int, r: int)
    requires
        0 < w,
        0 <= r <= h,
        g.len() == w * h,
    ensures
        bounded_from(settle(g, w, r * w), r * w),
    decreases h - r,
{
    lemma_settle_keeps_kinds(g, w, r * w);
    if r < h {
        assert((r + 1) * w == r * w + w) by (nonlinear_arith);
        assert(r * w + w == g.len() || r * w + 2 * w <= g.len()) by (nonlinear_arith)
            requires
                r < h,
                0 <= r,
                0 < w,
                g.len() == w * h,
        ;
        assert(0 <= r * w) by (nonlinear_arith)
            requires
                0 <= r,
                0 < w,
        ;
        lemma_settle_bounded(g, w, h, r + 1);
        let inner = settle(g, w, r * w + w);
        lemma_settle_keeps_kinds(g, w, r * w + w);
        assert forall|k: int| r * w <= k < g.len() implies #[trigger] support_bounded(
            settle(g, w, r * w)[k],
        ) by {
            if k < r * w + w {
                lemma_right_pass_bounded(inner, w, r * w, k - r * w);
            }
        }
    } else {
        assert(r * w == g.len()) by (nonlinear_arith)
            requires
                r == h,
                g.len() == w * h,
        ;
    }
}

/// A rock resting right on a border or a built support gets full support.
proof fn lemma_rock_over_solid(g: Seq<TileKind>, w: int, h: int, j: int)
    requires
        0 < w,
        0 < h,
        g.len() == w * h,
        0 <= j,
        j + w < g.len(),
        g[j + w] == TileKind::Border || g[j + w] == TileKind::Support,
    ensures
        neighbor_support(settle(g, w, 0)[j]) == SOLID_SUPPORT || settle(g, w, 0)[j] !is Rock,
{
    let r = j / w;
    let x = j % w;
    lemma_fundamental_div_mod(j, w);
    assert(j == r * w + x) by (nonlinear_arith)
        requires
            j == w * (j / w) + j % w,
            r == j / w,
            x == j % w,
    ;
    assert(0 <= r && r * w <= j) by (nonlinear_arith)
        requires
            j == r * w + x,
            0 <= x < w,
            0 <= j,
    ;
    assert(r < h - 1 && (r + 1) * w == r * w + w && r * w + 2 * w <= g.len()) by (nonlinear_arith)
        requires
            j == r * w + x,
            0 <= x < w,
            j + w < g.len(),
            g.len() == w * h,
            0 <= r,
    ;
    lemma_settle_stable(g, w, 0, r, j);
    let rs = r * w;
    let inner = settle(g, w, rs + w);
    lemma_settle_keeps_kinds(g, w, rs + w);
    lemma_settle_keeps_kinds(g, w, 0);
    assert(inner[j + w] == g[j + w]);
    assert(settle(g, w, rs) == settle_row(inner, w, rs));
    assert(settle(g, w, 0)[j] == settle(g, w, rs)[j]);
    match inner[j] {
        TileKind::Rock { intrinsic_support, .. } => {
            assert(rs + x == j);
            assert(left_pass(inner, w, rs, x) >= SOLID_SUPPORT);
            assert(right_pass(inner, w, rs, x) == SOLID_SUPPORT);
        },
        _ => {},
    }
}

/// A rock that holds itself up (as the rocks right over the starting cave do)
/// gets full support whatever lies around it, so it never collapses in a tick.
pub proof fn law_self_supporting_rock_stands(g: Seq<TileKind>, w: int, h: int, j: int)
    requires
        0 < w,
        0 < h,
        g.len() == w * h,
        0 <= j < g.len(),
        g[j] matches TileKind::Rock { intrinsic_support, .. } && intrinsic_support,
    ensures
        settle(g, w, 0)[j] == set_support(g[j], SOLID_SUPPORT as int),
        !collapses(settle(g, w, 0), w, j),
{
    let r = j / w;
    let x = j % w;
    lemma_fundamental_div_mod(j, w);
    assert(j == r * w + x) by (nonlinear_arith)
        requires
            j == w * (j / w) + j % w,
            r == j / w,
            x == j % w,
    ;
    assert(0 <= r && r * w <= j) by (nonlinear_arith)
        requires
            j == r * w + x,
            0 <= x < w,
            0 <= j,
    ;
    assert(r < h && (r + 1) * w == r * w + w && r * w + w <= g.len()) by (nonlinear_arith)
        requires
            j == r * w + x,
            0 <= x < w,
            j < g.len(),
            g.len() == w * h,
            0 <= r,
    ;
    lemma_settle_stable(g, w, 0, r, j);
    let rs = r * w;
    let inner = settle(g, w, rs + w);
    lemma_settle_keeps_kinds(g, w, rs + w);
    assert(settle(g, w, rs) == settle_row(inner, w, rs));
    assert(inner[j] == set_support(g[j], neighbor_support(inner[j])));
    assert(rs + x == j);
    assert(right_pass(inner, w, rs, x) == SOLID_SUPPORT);
    assert(settle(g, w, rs)[j] == set_support(inner[j], SOLID_SUPPORT as int));
}

/// After a tick of `Tiles::logic`, every rock's support is in the range from 0
/// to full.
pub proof fn law_logic_support_in_range(g: Seq<TileKind>, w: int, h: int)
    requires
        0 < w,
        0 < h,
        g.len() == w * h,
    ensures
        forall|i: int|
            0 <= i < g.len() ==> #[trigger] support_bounded(tiles_after_logic(g, w)[i]),
{
    lemma_settle_bounded(g, w, h, 0);
    lemma_settle_keeps_kinds(g, w, 0);
    let s = settle(g, w, 0);
    assert forall|i: int| 0 <= i < g.len() implies #[trigger] support_bounded(
        tiles_after_logic(g, w)[i],
    ) by {
        assert(support_bounded(s[i]));
    }
}

/// A tick of `Tiles::logic` never changes a border tile or a built support:
/// the frame of the map stands, and a support holds up the rock that rests on
/// it, so nothing falls onto it.
pub proof fn law_logic_keeps_borders_and_supports(g: Seq<TileKind>, w: int, h: int, i: int)
    requires
        0 < w,
        0 < h,
        g.len() == w * h,
        0 <= i < g.len(),
        g[i] == TileKind::Border || g[i] == TileKind::Support,
    ensures
        tiles_after_logic(g, w)[i] == g[i],
{
    lemma_settle_keeps_kinds(g, w, 0);
    let s = settle(g, w, 0);
    assert(s[i] == g[i]);
    if i - w >= 0 {
        lemma_rock_over_solid(g, w, h, i - w);
        assert(!collapses(s, w, i - w));
    }
}


/// A jaunter sends to at most one place.
pub proof fn law_next_jaunter_unique(g: Seq<TileKind>, cur: int, j1: int, j2: int)
    requires
        0 <= cur < g.len(),
        is_next_jaunter(g, cur, j1),
        is_next_jaunter(g, cur, j2),
    ensures
        j1 == j2,
{
    let n = g.len() as int;
    if cyclic_offset(n, cur, j1) < cyclic_offset(n, cur, j2) {
        assert(g[j1] != TileKind::Jaunter);
    } else if cyclic_offset(n, cur, j2) < cyclic_offset(n, cur, j1) {
        assert(g[j2] != TileKind::Jaunter);
    }
}

/// With exactly two jaunters on the map, each sends to the other, so jaunting
/// twice brings one back.
pub proof fn law_jaunter_pair(g: Seq<TileKind>, a: int, b: int)
    requires
        0 <= a < g.len(),
        0 <= b < g.len(),
        a != b,
        g[a] == TileKind::Jaunter,
        g[b] == TileKind::Jaunter,
        forall|k: int| 0 <= k < g.len() && k != a && k != b ==> #[trigger] g[k] != TileKind::Jaunter,
    ensures
        is_next_jaunter(g, a, b),
        is_next_jaunter(g, b, a),
{
    let n = g.len() as int;
    assert forall|k: int|
        0 <= k < n && k != a && cyclic_offset(n, a, k) < cyclic_offset(n, a, b) implies #[trigger] g[k]
        != TileKind::Jaunter by {}
    assert forall|k: int|
        0 <= k < n && k != b && cyclic_offset(n, b, k) < cyclic_offset(n, b, a) implies #[trigger] g[k]
        != TileKind::Jaunter by {}
}


/// The map tiles (x, y) of row `y` with `x0 <= x < x1`, left to right.
pub open spec fn window_row(w: int, h: int, y: int, x0: int, x1: int) -> Seq<(i32, i32)>
    decreases x1 - x0,
{
    if x1 <= x0 {
        Seq::empty()
    } else {
        window_row(w, h, y, x0, x1 - 1) + if 0 <= x1 - 1 < w && 0 <= y < h {
            seq![((x1 - 1) as i32, y as i32)]
        } else {
            Seq::empty()
        }
    }
}

/// The map tiles (x, y) with `x0 <= x < x1` and `y0 <= y < y1`, row by row from
/// the top, each row left to right.
pub open spec fn window(w: int, h: int, y0: int, y1: int, x0: int, x1: int) -> Seq<(i32, i32)>
    decreases y1 - y0,
{
    if y1 <= y0 {
        Seq::empty()
    } else {
        window(w, h, y0, y1 - 1, x0, x1) + window_row(w, h, y1 - 1, x0, x1)
    }
}

impl Tiles {
    /// The tiles of the map within `r` tiles of (cx, cy) in both directions,
    /// row by row from the top, each row left to right.
    pub fn tiles_in_window(&self, cx: i32, cy: i32, r: i32) -> (out: Vec<(i32, i32)>)
        requires
            self.wf(),
            0 <= r,
        ensures
            out@ == window(
                self.width as int,
                self.height as int,
                cy - r,
                cy + r + 1,
                cx - r,
                cx + r + 1,
            ),
    {
        let ghost wi = self.width as int;
        let ghost hi = self.height as int;
        let x0: i64 = cx as i64 - r as i64;
        let x1: i64 = cx as i64 + r as i64 + 1;
        let y0: i64 = cy as i64 - r as i64;
        let y1: i64 = cy as i64 + r as i64 + 1;
        let mut out: Vec<(i32, i32)> = Vec::new();
        let mut y: i64 = y0;
        while y < y1
            invariant
                self.wf(),
                wi == self.width,
                hi == self.height,
                y0 <= y <= y1,
                x0 <= x1,
                out@ == window(wi, hi, y0 as int, y as int, x0 as int, x1 as int),
            decreases y1 - y,
        {
            let mut x: i64 = x0;
            while x < x1
                invariant
                    self.wf(),
                    wi == self.width,
                    hi == self.height,
                    y0 <= y < y1,
                    x0 <= x <= x1,
                    out@ == window(wi, hi, y0 as int, y as int, x0 as int, x1 as int) + window_row(
                        wi,
                        hi,
                        y as int,
                        x0 as int,
                        x as int,
                    ),
                decreases x1 - x,
            {
                if 0 <= x && x < self.width as i64 && 0 <= y && y < self.height as i64 {
                    out.push((x as i32, y as i32));
                }
                proof {
                    let ghost a = window(wi, hi, y0 as int, y as int, x0 as int, x1 as int);
                    let ghost b = window_row(wi, hi, y as int, x0 as int, x as int);
                    let ghost c = window_row(wi, hi, y as int, x0 as int, x + 1);
                    assert(c == b + if 0 <= x < wi && 0 <= y < hi {
                        seq![(x as i32, y as i32)]
                    } else {
                        Seq::<(i32, i32)>::empty()
                    });
                    assert(out@ =~= a + c);
                }
                x += 1;
            }
            y += 1;
        }
        out
    }
}


/// Writing tile (x1, y1) of a `w` by `h` map (as `get_tile_kind_mut` does) changes
/// that tile to what was written and leaves every other tile of the map as it was.
pub proof fn law_write_touches_one_tile(
    g: Seq<TileKind>,
    w: int,
    h: int,
    x1: int,
    y1: int,
    x2: int,
    y2: int,
    k: TileKind,
)
    requires
        g.len() == w * h,
        0 <= x1 < w,
        0 <= y1 < h,
        0 <= x2 < w,
        0 <= y2 < h,
    ensures
        g.update(y1 * w + x1, k)[y1 * w + x1] == k,
        (x1 != x2 || y1 != y2) ==> g.update(y1 * w + x1, k)[y2 * w + x2] == g[y2 * w + x2],
{
    lemma_index_in_bounds(w, h, x1, y1);
    lemma_index_in_bounds(w, h, x2, y2);
}


/// The health of a rock, if the tile is one.
pub open spec fn rock_health(t: TileKind) -> Option<i32> {
    match t {
        TileKind::Rock { health, .. } => Some(health),
        _ => None,
    }
}

/// A tick of `Tiles::logic` creates no rock: every rock afterwards was there
/// before with the same health, or fell from the tile right above it.
pub proof fn law_logic_rocks_come_from_above(g: Seq<TileKind>, w: int, h: int, i: int)
    requires
        0 < w,
        0 < h,
        g.len() == w * h,
        0 <= i < g.len(),
        tiles_after_logic(g, w)[i] is Rock,
    ensures
        rock_health(g[i]) == rock_health(tiles_after_logic(g, w)[i]) || (i >= w && rock_health(
            g[i - w],
        ) == rock_health(tiles_after_logic(g, w)[i])),
{
    lemma_settle_keeps_kinds(g, w, 0);
    let s = settle(g, w, 0);
    assert(s[i] == set_support(g[i], neighbor_support(s[i])));
    if i >= w {
        assert(s[i - w] == set_support(g[i - w], neighbor_support(s[i - w])));
    }
}


/// The map is the one that `Tiles::new(w, h)` makes.
pub open spec fn is_new_map(g: Seq<TileKind>, w: int, h: int) -> bool {
    &&& 0 < w
    &&& 0 < h
    &&& g.len() == w * h
    &&& forall|i: int| 0 <= i < g.len() ==> #[trigger] g[i] == initial_tile(w, h, i % w, i / w)
}

/// Tile (x, y) of a new map sits at index `y * w + x`.
proof fn lemma_new_map_at(g: Seq<TileKind>, w: int, h: int, x: int, y: int)
    requires
        is_new_map(g, w, h),
        0 <= x < w,
        0 <= y < h,
    ensures
        0 <= y * w + x < g.len(),
        g[y * w + x] == initial_tile(w, h, x, y),
{
    assert(0 <= y * w + x < g.len()) by (nonlinear_arith)
        requires
            0 <= x < w,
            0 <= y < h,
            g.len() == w * h,
    ;
    lemma_fundamental_div_mod_converse(y * w + x, w, y, x);
}

/// The starting cave has no gaps along a row.
proof fn lemma_carved_convex(x: int, y: int)
    requires
        carved(x - 1, y),
        carved(x + 1, y),
    ensures
        carved(x, y),
{
    if y != 10 {
        assert((x - 10) * (x - 10) + (y - 10) * (y - 10) < 25) by (nonlinear_arith)
            requires
                (x - 1 - 10) * (x - 1 - 10) + (y - 10) * (y - 10) < 25,
                (x + 1 - 10) * (x + 1 - 10) + (y - 10) * (y - 10) < 25,
        ;
    }
}

/// Working out the rows from the one starting at `rs` down leaves the rows
/// above it alone.
proof fn lemma_settle_above_untouched(g: Seq<TileKind>, w: int, rs: int, i: int)
    requires
        0 <= i < rs,
        i < g.len(),
    ensures
        settle(g, w, rs)[i] == g[i],
    decreases g.len() + w - rs,
{
    if !(w <= 0 || rs >= g.len()) {
        lemma_settle_above_untouched(g, w, rs + w, i);
        lemma_settle_keeps_kinds(g, w, rs + w);
    }
}

/// On a new map, with the rows below row `r` already worked out to full support,
/// every rock of row `r` gets full support.
proof fn lemma_new_rock_full(g: Seq<TileKind>, inner: Seq<TileKind>, w: int, h: int, r: int, x: int)
    requires
        is_new_map(g, w, h),
        0 <= r < h,
        0 <= x < w,
        inner.len() == g.len(),
        forall|k: int| 0 <= k < r * w + w ==> #[trigger] inner[k] == g[k],
        forall|k: int|
            r * w + w <= k < g.len() ==> #[trigger] inner[k] == set_support(g[k], SOLID_SUPPORT as int),
        g[r * w + x] is Rock,
    ensures
        right_pass(inner, w, r * w, x) == SOLID_SUPPORT,
{
    let rs = r * w;
    lemma_new_map_at(g, w, h, x, r);
    assert(inner[rs + x] == g[rs + x]);
    assert(1 <= x <= w - 2 && 1 <= r <= h - 2 && !carved(x, r));
    assert(rs + w + w <= g.len()) by (nonlinear_arith)
        requires
            rs == r * w,
            r <= h - 2,
            0 < w,
            g.len() == w * h,
    ;
    assert((r + 1) * w == rs + w) by (nonlinear_arith)
        requires
            rs == r * w,
    ;
    lemma_new_map_at(g, w, h, x, r + 1);
    let below = inner[rs + w + x];
    assert(below == set_support(g[rs + w + x], SOLID_SUPPORT as int));
    if carved(x, r + 1) {
        assert(right_pass(inner, w, rs, x) == SOLID_SUPPORT);
    } else if neighbor_support(below) == SOLID_SUPPORT {
        assert(left_pass(inner, w, rs, x) >= SOLID_SUPPORT);
        assert(right_pass(inner, w, rs, x) == SOLID_SUPPORT);
    } else {
        // Only the grinder lies below with no support to give.
        assert(x == w / 2 && r + 1 == h - 1);
        lemma_new_map_at(g, w, h, x - 1, r + 1);
        lemma_new_map_at(g, w, h, x + 1, r + 1);
        lemma_new_map_at(g, w, h, x - 1, r);
        lemma_new_map_at(g, w, h, x + 1, r);
        assert(inner[rs + w + x - 1] == TileKind::Border);
        assert(inner[rs + w + x + 1] == TileKind::Border);
        assert(inner[rs + x - 1] == g[rs + x - 1]);
        assert(inner[rs + x + 1] == g[rs + x + 1]);
        let left = inner[rs + x - 1];
        let right = inner[rs + x + 1];
        if left == TileKind::Border || left is Rock {
            assert(left_pass(inner, w, rs, x - 1) >= SOLID_SUPPORT);
            assert(left_pass(inner, w, rs, x) >= SOLID_SUPPORT - 1);
            assert(right_pass(inner, w, rs, x) == SOLID_SUPPORT);
        } else {
            assert(carved(x - 1, r));
            if right == TileKind::Border {
                assert(right_pass(inner, w, rs, x + 1) == SOLID_SUPPORT);
                assert(right_pass(inner, w, rs, x) == SOLID_SUPPORT);
            } else if right is Rock {
                assert(left_pass(inner, w, rs, x + 1) >= SOLID_SUPPORT);
                assert(right_pass(inner, w, rs, x + 1) == SOLID_SUPPORT);
                assert(right_pass(inner, w, rs, x) == SOLID_SUPPORT);
            } else {
                assert(carved(x + 1, r));
                lemma_carved_convex(x, r);
            }
        }
    }
}

/// On a new map, working out the rows from row `r` down gives every rock of
/// those rows full support and changes nothing else.
proof fn lemma_new_map_rows(g: Seq<TileKind>, w: int, h: int, r: int)
    requires
        is_new_map(g, w, h),
        0 <= r <= h,
    ensures
        settle(g, w, r * w).len() == g.len(),
        forall|k: int|
            r * w <= k < g.len() ==> #[trigger] settle(g, w, r * w)[k] == set_support(
                g[k],
                SOLID_SUPPORT as int,
            ),
    decreases h - r,
{
    lemma_settle_keeps_kinds(g, w, r * w);
    if r < h {
        assert((r + 1) * w == r * w + w) by (nonlinear_arith);
        assert(0 <= r * w && r * w + w <= g.len()) by (nonlinear_arith)
            requires
                0 <= r < h,
                0 < w,
                g.len() == w * h,
        ;
        lemma_new_map_rows(g, w, h, r + 1);
        let rs = r * w;
        let inner = settle(g, w, rs + w);
        lemma_settle_keeps_kinds(g, w, rs + w);
        assert forall|k: int| 0 <= k < rs + w implies #[trigger] inner[k] == g[k] by {
            lemma_settle_above_untouched(g, w, rs + w, k);
        }
        assert(settle(g, w, rs) == settle_row(inner, w, rs));
        assert forall|k: int| rs <= k < g.len() implies #[trigger] settle(g, w, rs)[k]
            == set_support(g[k], SOLID_SUPPORT as int) by {
            if k < rs + w {
                if g[k] is Rock {
                    lemma_new_rock_full(g, inner, w, h, r, k - rs);
                }
            }
        }
    } else {
        assert(r * w == g.len()) by (nonlinear_arith)
            requires
                r == h,
                g.len() == w * h,
        ;
    }
}

/// With no rock collapsing, no rock lands anywhere.
proof fn lemma_no_kills(s: Seq<TileKind>, w: int, rs: int)
    requires
        forall|i: int| !#[trigger] collapses(s, w, i),
    ensures
        kills(s, w, rs) =~= Seq::<int>::empty(),
    decreases s.len() + w - rs,
{
    if !(w <= 0 || rs + w >= s.len()) {
        lemma_no_kills(s, w, rs + w);
        lemma_no_row_kills(s, w, rs, w);
    }
}

proof fn lemma_no_row_kills(s: Seq<TileKind>, w: int, rs: int, x: int)
    requires
        forall|i: int| !#[trigger] collapses(s, w, i),
    ensures
        row_kills(s, w, rs, x) =~= Seq::<int>::empty(),
    decreases x,
{
    if x > 0 {
        lemma_no_row_kills(s, w, rs, x - 1);
        assert(!collapses(s, w, rs + x - 1));
    }
}

/// With no rock falling, no rock comes to rest.
proof fn lemma_no_landings(m: Seq<TileKind>, i: int)
    requires
        i <= m.len(),
        forall|k: int| 0 <= k < m.len() ==> !#[trigger] lands(m[k]),
    ensures
        landings(m, i) =~= Seq::<int>::empty(),
    decreases i,
{
    if i > 0 {
        lemma_no_landings(m, i - 1);
        assert(!lands(m[i - 1]));
    }
}

/// The first tick of a new game is quiet: every rock of the map that
/// `Tiles::new` makes, the rocks right over the cave included, gets full
/// support; nothing collapses and nothing lands; and the tick changes no tile
/// but for the supports of the rocks.
pub proof fn law_new_map_first_tick_is_quiet(g: Seq<TileKind>, w: int, h: int)
    requires
        is_new_map(g, w, h),
    ensures
        forall|i: int|
            0 <= i < g.len() ==> #[trigger] settle(g, w, 0)[i] == set_support(
                g[i],
                SOLID_SUPPORT as int,
            ),
        kills(settle(g, w, 0), w, 0) == Seq::<int>::empty(),
        landings(collapsed_map(g, w), g.len() as int) == Seq::<int>::empty(),
        tiles_after_logic(g, w).len() == g.len(),
        forall|i: int|
            0 <= i < g.len() ==> #[trigger] tiles_after_logic(g, w)[i] == set_support(
                g[i],
                SOLID_SUPPORT as int,
            ),
{
    lemma_new_map_rows(g, w, h, 0);
    assert(0 * w == 0);
    let s = settle(g, w, 0);
    assert forall|i: int| !#[trigger] collapses(s, w, i) by {
        if 0 <= i && i + w < s.len() {
            assert(s[i] == set_support(g[i], SOLID_SUPPORT as int));
        }
    }
    lemma_no_kills(s, w, 0);
    let m = collapsed_map(g, w);
    assert(m =~= s);
    assert forall|k: int| 0 <= k < m.len() implies !#[trigger] lands(m[k]) by {
        assert(m[k] == set_support(g[k], SOLID_SUPPORT as int));
        lemma_fundamental_div_mod(k, w);
        assert(0 <= k / w < h) by (nonlinear_arith)
            requires
                k == w * (k / w) + k % w,
                0 <= k % w < w,
                0 <= k < w * h,
        ;
    }
    lemma_no_landings(m, m.len() as int);
    assert forall|i: int| 0 <= i < g.len() implies #[trigger] tiles_after_logic(g, w)[i]
        == set_support(g[i], SOLID_SUPPORT as int) by {
        assert(m[i] == set_support(g[i], SOLID_SUPPORT as int));
    }
}

} // verus!
