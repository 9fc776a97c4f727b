//! Background tiler: a 3x3 ring of square tiles follows the camera. A
//! tile that falls too far behind on an axis is teleported three tile
//! widths ahead and its collectible cans are regenerated, which yields an
//! endless scrollable world out of nine live tiles.

use vstd::prelude::*;

use crate::random::random_in_range;
use crate::truck::POS_CAP;

verus! {

/// The ring is three tiles wide; a wrap teleports a tile by this many
/// tile widths, keeping its relative place in the ring.
pub const WRAP_STRIDE: i64 = 3;

/// Tile edge length used at startup, before an image reports its size.
pub const INITIAL_TILE_SIZE: i64 = 1000;

/// Margin kept between a regenerated can and its tile's edges.
pub const CAN_MARGIN: i64 = 50;

/// Fresh can counts are drawn uniformly from `MIN_CANS..MAX_CANS`.
pub const MIN_CANS: i64 = 3;

pub const MAX_CANS: i64 = 8;

/// Cans placed at startup are drawn from a fixed centered square.
pub const SETUP_CAN_RANGE: i64 = 400;

/// Smallest tile edge for which the regeneration range is non-empty.
pub const MIN_TILE_SIZE: i64 = 2 * CAN_MARGIN + 2;

/// Largest tile edge length the simulation accepts.
pub const SIZE_CAP: i64 = 1_048_576;

/// Largest tile coordinate magnitude the simulation accepts; keeps the
/// snap and wrap arithmetic inside `i64`.
pub const TILE_POS_CAP: i64 = 4_398_046_511_104;

/// Largest grid index magnitude the simulation accepts.
pub const GRID_CAP: i64 = 1_152_921_504_606_846_976;

/// A collectible garbage can, placed relative to its owning tile's center.
#[derive(Clone, Copy, PartialEq, Eq, Structural, Debug)]
pub struct GarbageCan {
    pub x: i64,
    pub y: i64,
}

/// One background tile: a logical grid index (never reset, moved by the
/// wrap stride), a world position, and the cans it owns.
pub struct Background {
    pub grid_x: i64,
    pub grid_y: i64,
    pub x: i64,
    pub y: i64,
    pub cans: Vec<GarbageCan>,
}

/// Rounding division: the nearest integer to `a / b`, halves away from
/// zero, matching how a float quotient is rounded.
pub open spec fn round_half(a: int, b: int) -> int
    recommends
        b > 0,
{
    if a >= 0 {
        (2 * a + b) / (2 * b)
    } else {
        -((2 * (-a) + b) / (2 * b))
    }
}

/// A regenerated can lies inside its tile with `CAN_MARGIN` kept free
/// along every edge.
pub open spec fn can_in_tile(c: GarbageCan, width: int, height: int) -> bool {
    &&& -(width / 2) + CAN_MARGIN <= c.x < width / 2 - CAN_MARGIN
    &&& -(height / 2) + CAN_MARGIN <= c.y < height / 2 - CAN_MARGIN
}

/// A freshly drawn can population: a count from `MIN_CANS..MAX_CANS`,
/// every can inside the margins.
pub open spec fn fresh_cans(cans: Seq<GarbageCan>, width: int, height: int) -> bool {
    &&& MIN_CANS <= cans.len() < MAX_CANS
    &&& forall|i: int| 0 <= i < cans.len() ==> can_in_tile(#[trigger] cans[i], width, height)
}

/// The tile position after the self-correcting snap to the grid.
pub open spec fn snapped(pos: int, size: int) -> int
    recommends
        size > 0,
{
    round_half(pos, size) * size
}

/// How many tile widths the wrap shifts a snapped axis position: the full
/// stride toward the camera when the tile sits more than one and a half
/// tile widths behind or ahead of it, and nothing otherwise.
pub open spec fn wrap_delta(p: int, cam: int, size: int) -> int {
    if 2 * (p - cam) < -(3 * size) {
        WRAP_STRIDE as int
    } else if 2 * (p - cam) > 3 * size {
        -(WRAP_STRIDE as int)
    } else {
        0
    }
}

/// Snapping moves a position by at most half a tile edge.
proof fn lemma_snap_close(a: int, b: int)
    requires
        b > 0,
    ensures
        -b <= 2 * (snapped(a, b) - a) <= b,
{
    if a >= 0 {
        let n = 2 * a + b;
        let d = 2 * b;
        vstd::arithmetic::div_mod::lemma_fundamental_div_mod(n, d);
        vstd::arithmetic::div_mod::lemma_mod_division_less_than_divisor(n, d);
        assert(-b <= 2 * ((n / d) * b - a) <= b) by (nonlinear_arith)
            requires
                b > 0,
                n == 2 * a + b,
                d == 2 * b,
                n == d * (n / d) + n % d,
                0 <= n % d < d,
        ;
    } else {
        let n = 2 * (-a) + b;
        let d = 2 * b;
        vstd::arithmetic::div_mod::lemma_fundamental_div_mod(n, d);
        vstd::arithmetic::div_mod::lemma_mod_division_less_than_divisor(n, d);
        assert(-b <= 2 * ((-(n / d)) * b - a) <= b) by (nonlinear_arith)
            requires
                b > 0,
                a < 0,
                n == 2 * (-a) + b,
                d == 2 * b,
                n == d * (n / d) + n % d,
                0 <= n % d < d,
        ;
    }
}

/// A position already on the grid is its own snap.
pub proof fn lemma_snap_fixed(k: int, b: int)
    requires
        b > 0,
    ensures
        snapped(k * b, b) == k * b,
{
    if k >= 0 {
        assert(2 * (k * b) + b == (2 * b) * k + b) by (nonlinear_arith);
        vstd::arithmetic::div_mod::lemma_div_multiples_vanish_fancy(k, b, 2 * b);
        assert(round_half(k * b, b) == k) by (nonlinear_arith)
            requires
                b > 0,
                k >= 0,
                (2 * (k * b) + b) / (2 * b) == k,
        ;
    } else {
        assert(2 * (-(k * b)) + b == (2 * b) * (-k) + b) by (nonlinear_arith);
        vstd::arithmetic::div_mod::lemma_div_multiples_vanish_fancy(-k, b, 2 * b);
        assert(round_half(k * b, b) == k) by (nonlinear_arith)
            requires
                b > 0,
                k < 0,
                (2 * (-(k * b)) + b) / (2 * b) == -k,
        ;
    }
}

/// The wrap is idempotent within a tick: once an axis has been corrected
/// by a full stride, re-evaluating the same threshold against the same
/// camera does not trigger again, because the shifted position falls
/// outside the trigger band. One stride must be enough to reach the band,
/// which holds whenever the tile sits within three strides of the camera.
pub proof fn lemma_wrap_idempotent(p: int, cam: int, size: int)
    requires
        size > 0,
        wrap_delta(p, cam, size) != 0,
        -(9 * size) <= 2 * (p - cam) <= 9 * size,
    ensures
        wrap_delta(p + wrap_delta(p, cam, size) * size, cam, size) == 0,
{
}

/// After one tiler pass, a tile is settled: its position is its own
/// snap, and re-evaluating the wrap thresholds against the same camera
/// triggers nothing, on either axis. One stride must have been enough to
/// reach the band, which holds whenever the snapped tile sat within
/// three strides of the camera.
pub proof fn lemma_update_settles(
    t0: Background,
    t1: Background,
    cam_x: int,
    cam_y: int,
    w: int,
    h: int,
)
    requires
        w > 0,
        h > 0,
        tile_updated(t0, t1, cam_x, cam_y, w, h),
        -(9 * w) <= 2 * (snapped(t0.x as int, w) - cam_x) <= 9 * w,
        -(9 * h) <= 2 * (snapped(t0.y as int, h) - cam_y) <= 9 * h,
    ensures
        snapped(t1.x as int, w) == t1.x,
        snapped(t1.y as int, h) == t1.y,
        wrap_delta(t1.x as int, cam_x, w) == 0,
        wrap_delta(t1.y as int, cam_y, h) == 0,
{
    let qx = round_half(t0.x as int, w);
    let wx = wrap_delta(snapped(t0.x as int, w), cam_x, w);
    assert(t1.x == (qx + wx) * w) by (nonlinear_arith)
        requires
            t1.x == qx * w + wx * w,
    ;
    lemma_snap_fixed(qx + wx, w);
    if wx != 0 {
        lemma_wrap_idempotent(snapped(t0.x as int, w), cam_x, w);
    }
    let qy = round_half(t0.y as int, h);
    let wy = wrap_delta(snapped(t0.y as int, h), cam_y, h);
    assert(t1.y == (qy + wy) * h) by (nonlinear_arith)
        requires
            t1.y == qy * h + wy * h,
    ;
    lemma_snap_fixed(qy + wy, h);
    if wy != 0 {
        lemma_wrap_idempotent(snapped(t0.y as int, h), cam_y, h);
    }
}

/// Divide a position by a tile edge, rounding to the nearest grid line.
fn round_div(a: i64, b: i64) -> (q: i64)
    requires
        0 < b <= SIZE_CAP,
        -TILE_POS_CAP <= a <= TILE_POS_CAP,
    ensures
        q == round_half(a as int, b as int),
        -TILE_POS_CAP <= q <= TILE_POS_CAP,
{
    proof {
        lemma_round_half_bound(a as int, b as int, TILE_POS_CAP as int);
    }
    let bu: u64 = b as u64;
    if a >= 0 {
        let m: u64 = a as u64;
        ((2 * m + bu) / (2 * bu)) as i64
    } else {
        let m: u64 = (-a) as u64;
        -(((2 * m + bu) / (2 * bu)) as i64)
    }
}

/// Rounding a magnitude no larger than `cap` yields a quotient no larger
/// than `cap`.
proof fn lemma_round_half_bound(a: int, b: int, cap: int)
    requires
        b > 0,
        cap >= 0,
        -cap <= a <= cap,
    ensures
        -cap <= round_half(a, b) <= cap,
        a >= 0 ==> round_half(a, b) >= 0,
        a < 0 ==> round_half(a, b) <= 0,
{
    if a >= 0 {
        assert(0 <= (2 * a + b) / (2 * b) <= cap) by (nonlinear_arith)
            requires
                b > 0,
                0 <= a <= cap,
        ;
    } else {
        assert(0 <= (2 * (-a) + b) / (2 * b) <= cap) by (nonlinear_arith)
            requires
                b > 0,
                0 < -a <= cap,
        ;
    }
}

impl Background {
    /// One tick of the wrap algorithm for one tile: snap the position to
    /// the grid, teleport the tile a full stride toward the camera if it
    /// left the ring, and regenerate its cans if it was teleported.
    pub fn update_tile(&mut self, cam_x: i64, cam_y: i64, width: i64, height: i64) -> (wrapped:
        bool)
        requires
            MIN_TILE_SIZE <= width <= SIZE_CAP,
            MIN_TILE_SIZE <= height <= SIZE_CAP,
            -POS_CAP <= cam_x <= POS_CAP,
            -POS_CAP <= cam_y <= POS_CAP,
            -TILE_POS_CAP <= old(self).x <= TILE_POS_CAP,
            -TILE_POS_CAP <= old(self).y <= TILE_POS_CAP,
            -GRID_CAP <= old(self).grid_x <= GRID_CAP,
            -GRID_CAP <= old(self).grid_y <= GRID_CAP,
        ensures
            ({
                let sx = snapped(old(self).x as int, width as int);
                let sy = snapped(old(self).y as int, height as int);
                let wx = wrap_delta(sx, cam_x as int, width as int);
                let wy = wrap_delta(sy, cam_y as int, height as int);
                &&& final(self).x == sx + wx * width
                &&& final(self).y == sy + wy * height
                &&& final(self).grid_x == old(self).grid_x + wx
                &&& final(self).grid_y == old(self).grid_y + wy
                &&& wrapped == (wx != 0 || wy != 0)
                &&& (wrapped ==> fresh_cans(final(self).cans@, width as int, height as int))
                &&& (!wrapped ==> final(self).cans@ == old(self).cans@)
            }),
            -(TILE_POS_CAP + 4 * SIZE_CAP) <= final(self).x <= TILE_POS_CAP + 4 * SIZE_CAP,
            -(TILE_POS_CAP + 4 * SIZE_CAP) <= final(self).y <= TILE_POS_CAP + 4 * SIZE_CAP,
            -(GRID_CAP + WRAP_STRIDE) <= final(self).grid_x <= GRID_CAP + WRAP_STRIDE,
            -(GRID_CAP + WRAP_STRIDE) <= final(self).grid_y <= GRID_CAP + WRAP_STRIDE,
    {
        proof {
            lemma_snap_close(self.x as int, width as int);
            lemma_snap_close(self.y as int, height as int);
        }
        let qx: i64 = round_div(self.x, width);
        let qy: i64 = round_div(self.y, height);
        let sx: i64 = qx * width;
        let sy: i64 = qy * height;
        proof {
            assert(sx == snapped(old(self).x as int, width as int));
            assert(sy == snapped(old(self).y as int, height as int));
        }
        self.x = sx;
        self.y = sy;

        let diff_x: i64 = sx - cam_x;
        let diff_y: i64 = sy - cam_y;

        let mut wrapped: bool = false;
        if 2 * diff_x < -(3 * width) {
            self.x = sx + WRAP_STRIDE * width;
            self.grid_x = self.grid_x + WRAP_STRIDE;
            wrapped = true;
        } else if 2 * diff_x > 3 * width {
            self.x = sx - WRAP_STRIDE * width;
            self.grid_x = self.grid_x - WRAP_STRIDE;
            wrapped = true;
        }

        if 2 * diff_y < -(3 * height) {
            self.y = sy + WRAP_STRIDE * height;
            self.grid_y = self.grid_y + WRAP_STRIDE;
            wrapped = true;
        } else if 2 * diff_y > 3 * height {
            self.y = sy - WRAP_STRIDE * height;
            self.grid_y = self.grid_y - WRAP_STRIDE;
            wrapped = true;
        }

        if wrapped {
            self.cans = regenerate_cans(width, height);
        }
        wrapped
    }
}

/// What one tiler pass does to one tile: the snap, the possible stride
/// shift on each axis, and the content regeneration when any axis shifted.
pub open spec fn tile_updated(
    t0: Background,
    t1: Background,
    cam_x: int,
    cam_y: int,
    w: int,
    h: int,
) -> bool {
    let sx = snapped(t0.x as int, w);
    let sy = snapped(t0.y as int, h);
    let wx = wrap_delta(sx, cam_x, w);
    let wy = wrap_delta(sy, cam_y, h);
    &&& t1.x == sx + wx * w
    &&& t1.y == sy + wy * h
    &&& t1.grid_x == t0.grid_x + wx
    &&& t1.grid_y == t0.grid_y + wy
    &&& ((wx != 0 || wy != 0) ==> fresh_cans(t1.cans@, w, h))
    &&& ((wx == 0 && wy == 0) ==> t1.cans@ == t0.cans@)
}

/// One tiler pass over a whole tile row, pointwise.
pub open spec fn tiles_updated(
    before: Seq<Background>,
    after: Seq<Background>,
    cam_x: int,
    cam_y: int,
    w: int,
    h: int,
) -> bool {
    &&& after.len() == before.len()
    &&& forall|i: int|
        0 <= i < before.len() ==> tile_updated(before[i], #[trigger] after[i], cam_x, cam_y, w, h)
}

/// A tile whose position and grid index the tiler arithmetic can hold.
pub open spec fn tile_in_caps(t: Background) -> bool {
    &&& -TILE_POS_CAP <= t.x <= TILE_POS_CAP
    &&& -TILE_POS_CAP <= t.y <= TILE_POS_CAP
    &&& -GRID_CAP <= t.grid_x <= GRID_CAP
    &&& -GRID_CAP <= t.grid_y <= GRID_CAP
}

/// One tick of the tiler: snap, wrap and regenerate every tile against
/// the current camera position and tile size.
pub fn update_background(
    tiles: &mut Vec<Background>,
    cam_x: i64,
    cam_y: i64,
    width: i64,
    height: i64,
)
    requires
        MIN_TILE_SIZE <= width <= SIZE_CAP,
        MIN_TILE_SIZE <= height <= SIZE_CAP,
        -POS_CAP <= cam_x <= POS_CAP,
        -POS_CAP <= cam_y <= POS_CAP,
        forall|i: int| 0 <= i < old(tiles)@.len() ==> tile_in_caps(#[trigger] old(tiles)@[i]),
    ensures
        tiles_updated(
            old(tiles)@,
            final(tiles)@,
            cam_x as int,
            cam_y as int,
            width as int,
            height as int,
        ),
        forall|i: int|
            0 <= i < final(tiles)@.len() ==> {
                &&& -(TILE_POS_CAP + 4 * SIZE_CAP) <= (#[trigger] final(tiles)@[i]).x
                    <= TILE_POS_CAP + 4 * SIZE_CAP
                &&& -(TILE_POS_CAP + 4 * SIZE_CAP) <= final(tiles)@[i].y <= TILE_POS_CAP + 4
                    * SIZE_CAP
                &&& -(GRID_CAP + WRAP_STRIDE) <= final(tiles)@[i].grid_x <= GRID_CAP + WRAP_STRIDE
                &&& -(GRID_CAP + WRAP_STRIDE) <= final(tiles)@[i].grid_y <= GRID_CAP + WRAP_STRIDE
            },
{
    let ghost tiles0 = tiles@;
    let mut i: usize = 0;
    while i < tiles.len()
        invariant
            0 <= i <= tiles0.len(),
            tiles@.len() == tiles0.len(),
            MIN_TILE_SIZE <= width <= SIZE_CAP,
            MIN_TILE_SIZE <= height <= SIZE_CAP,
            -POS_CAP <= cam_x <= POS_CAP,
            -POS_CAP <= cam_y <= POS_CAP,
            forall|k: int| 0 <= k < tiles0.len() ==> tile_in_caps(#[trigger] tiles0[k]),
            forall|k: int| i as int <= k < tiles0.len() ==> tiles@[k] == tiles0[k],
            forall|k: int|
                0 <= k < i as int ==> tile_updated(
                    tiles0[k],
                    #[trigger] tiles@[k],
                    cam_x as int,
                    cam_y as int,
                    width as int,
                    height as int,
                ),
            forall|k: int|
                0 <= k < i as int ==> {
                    &&& -(TILE_POS_CAP + 4 * SIZE_CAP) <= (#[trigger] tiles@[k]).x <= TILE_POS_CAP
                        + 4 * SIZE_CAP
                    &&& -(TILE_POS_CAP + 4 * SIZE_CAP) <= tiles@[k].y <= TILE_POS_CAP + 4
                        * SIZE_CAP
                    &&& -(GRID_CAP + WRAP_STRIDE) <= tiles@[k].grid_x <= GRID_CAP + WRAP_STRIDE
                    &&& -(GRID_CAP + WRAP_STRIDE) <= tiles@[k].grid_y <= GRID_CAP + WRAP_STRIDE
                },
        decreases tiles0.len() - i,
    {
        proof {
            assert(tiles@[i as int] == tiles0[i as int]);
            assert(tile_in_caps(tiles0[i as int]));
        }
        let ghost before = tiles@;
        tiles[i].update_tile(cam_x, cam_y, width, height);
        proof {
            assert forall|k: int| 0 <= k < tiles0.len() && k != i as int implies tiles@[k]
                == before[k] by {}
        }
        i = i + 1;
    }
}

/// Draw a fresh set of cans for a tile of the given size.
fn regenerate_cans(width: i64, height: i64) -> (cans: Vec<GarbageCan>)
    requires
        MIN_TILE_SIZE <= width <= SIZE_CAP,
        MIN_TILE_SIZE <= height <= SIZE_CAP,
    ensures
        fresh_cans(cans@, width as int, height as int),
{
    let num_cans: i64 = random_in_range(MIN_CANS, MAX_CANS);
    let mut cans: Vec<GarbageCan> = Vec::new();
    let mut placed: i64 = 0;
    while placed < num_cans
        invariant
            MIN_CANS <= num_cans < MAX_CANS,
            0 <= placed <= num_cans,
            cans@.len() == placed,
            MIN_TILE_SIZE <= width <= SIZE_CAP,
            MIN_TILE_SIZE <= height <= SIZE_CAP,
            forall|i: int|
                0 <= i < cans@.len() ==> can_in_tile(
                    #[trigger] cans@[i],
                    width as int,
                    height as int,
                ),
        decreases num_cans - placed,
    {
        let cx: i64 = random_in_range(-(width / 2) + CAN_MARGIN, width / 2 - CAN_MARGIN);
        let cy: i64 = random_in_range(-(height / 2) + CAN_MARGIN, height / 2 - CAN_MARGIN);
        cans.push(GarbageCan { x: cx, y: cy });
        placed = placed + 1;
    }
    cans
}

/// The startup layout: a 3x3 ring of tiles around the origin, indexed
/// column by column, each tile on the initial grid and holding a fresh
/// random set of cans drawn from a fixed centered square.
pub open spec fn initial_layout(tiles: Seq<Background>) -> bool {
    &&& tiles.len() == 9
    &&& forall|i: int|
        0 <= i < 9 ==> {
            &&& (#[trigger] tiles[i]).grid_x == i / 3 - 1
            &&& tiles[i].grid_y == i % 3 - 1
            &&& tiles[i].x == (i / 3 - 1) * INITIAL_TILE_SIZE
            &&& tiles[i].y == (i % 3 - 1) * INITIAL_TILE_SIZE
            &&& MIN_CANS <= tiles[i].cans@.len() < MAX_CANS
            &&& forall|j: int|
                0 <= j < tiles[i].cans@.len() ==> {
                    &&& -SETUP_CAN_RANGE <= (#[trigger] tiles[i].cans@[j]).x < SETUP_CAN_RANGE
                    &&& -SETUP_CAN_RANGE <= tiles[i].cans@[j].y < SETUP_CAN_RANGE
                }
        }
}

/// Build the startup world: a 3x3 ring of tiles centered on the origin,
/// each with a fresh random set of cans drawn from a fixed square.
pub fn setup_environment() -> (tiles: Vec<Background>)
    ensures
        initial_layout(tiles@),
{
    let mut tiles: Vec<Background> = Vec::new();
    let mut idx: usize = 0;
    while idx < 9
        invariant
            0 <= idx <= 9,
            tiles@.len() == idx,
            forall|i: int|
                0 <= i < idx as int ==> {
                    &&& (#[trigger] tiles@[i]).grid_x == i / 3 - 1
                    &&& tiles@[i].grid_y == i % 3 - 1
                    &&& tiles@[i].x == (i / 3 - 1) * INITIAL_TILE_SIZE
                    &&& tiles@[i].y == (i % 3 - 1) * INITIAL_TILE_SIZE
                    &&& MIN_CANS <= tiles@[i].cans@.len() < MAX_CANS
                    &&& forall|j: int|
                        0 <= j < tiles@[i].cans@.len() ==> {
                            &&& -SETUP_CAN_RANGE <= (#[trigger] tiles@[i].cans@[j]).x
                                < SETUP_CAN_RANGE
                            &&& -SETUP_CAN_RANGE <= tiles@[i].cans@[j].y < SETUP_CAN_RANGE
                        }
                },
        decreases 9 - idx,
    {
        let gx: i64 = (idx as i64) / 3 - 1;
        let gy: i64 = (idx as i64) % 3 - 1;
        let num_cans: i64 = random_in_range(MIN_CANS, MAX_CANS);
        let mut cans: Vec<GarbageCan> = Vec::new();
        let mut placed: i64 = 0;
        while placed < num_cans
            invariant
                MIN_CANS <= num_cans < MAX_CANS,
                0 <= placed <= num_cans,
                cans@.len() == placed,
                forall|j: int|
                    0 <= j < cans@.len() ==> {
                        &&& -SETUP_CAN_RANGE <= (#[trigger] cans@[j]).x < SETUP_CAN_RANGE
                        &&& -SETUP_CAN_RANGE <= cans@[j].y < SETUP_CAN_RANGE
                    },
            decreases num_cans - placed,
        {
            let cx: i64 = random_in_range(-SETUP_CAN_RANGE, SETUP_CAN_RANGE);
            let cy: i64 = random_in_range(-SETUP_CAN_RANGE, SETUP_CAN_RANGE);
            cans.push(GarbageCan { x: cx, y: cy });
            placed = placed + 1;
        }
        tiles.push(
            Background {
                grid_x: gx,
                grid_y: gy,
                x: gx * INITIAL_TILE_SIZE,
                y: gy * INITIAL_TILE_SIZE,
                cans,
            },
        );
        idx = idx + 1;
    }
    tiles
}

} // verus!
