//! Collision and scoring, camera follow, and the whole-world tick that
//! strings the phases of one simulation step together.

use vstd::prelude::*;

use crate::environment::{
    initial_layout, setup_environment, tile_in_caps, tiles_updated, update_background, Background,
    GarbageCan, MAX_CANS, MIN_TILE_SIZE, SIZE_CAP, TILE_POS_CAP,
};
use crate::truck::{
    accel_halves, displacement, lemma_displacement_bound, turn_input, BackupAudioController, Truck,
    TruckInput, ANGLE_SCALE, DIR_SCALE, HEADING_CAP, MAX_TICK_DISTANCE, MAX_TICK_MILLIS,
    MILLIS_PER_SECOND, POS_CAP, ROTATION_SPEED,
};
use crate::ui::Score;

verus! {

/// Distance under which the truck collects a can, in world units.
pub const COLLISION_RADIUS: i64 = 50;

/// Largest coordinate magnitude that may reach the collision check.
pub const WORLD_CAP: i64 = TILE_POS_CAP + 5 * SIZE_CAP;

/// One presentation signal handed to the adapters after a tick: particle
/// bursts for collected cans, the backup-alarm loop transitions, and the
/// player's request to quit.
#[derive(Clone, Copy, PartialEq, Eq, Structural, Debug)]
pub enum GameEvent {
    AlarmStarted,
    AlarmStopped,
    ExitRequested,
    Collected { x: i64, y: i64 },
}

/// The truck collects everything strictly closer than `COLLISION_RADIUS`
/// in the ground plane: compared on squared Euclidean distance, which is
/// exact on integer coordinates.
pub open spec fn near(tx: int, ty: int, px: int, py: int) -> bool {
    (px - tx) * (px - tx) + (py - ty) * (py - ty) < COLLISION_RADIUS * COLLISION_RADIUS
}

/// The cans of one tile that stay after a collision pass, in their
/// original order.
pub open spec fn surviving_cans(
    cans: Seq<GarbageCan>,
    tile_x: int,
    tile_y: int,
    tx: int,
    ty: int,
) -> Seq<GarbageCan>
    decreases cans.len(),
{
    if cans.len() == 0 {
        Seq::empty()
    } else {
        let rest = surviving_cans(cans.drop_last(), tile_x, tile_y, tx, ty);
        let c = cans.last();
        if near(tx, ty, tile_x + c.x, tile_y + c.y) {
            rest
        } else {
            rest.push(c)
        }
    }
}

/// How many cans of one tile the truck collects this pass.
pub open spec fn collected_count(
    cans: Seq<GarbageCan>,
    tile_x: int,
    tile_y: int,
    tx: int,
    ty: int,
) -> int
    decreases cans.len(),
{
    if cans.len() == 0 {
        0
    } else {
        let c = cans.last();
        collected_count(cans.drop_last(), tile_x, tile_y, tx, ty) + if near(
            tx,
            ty,
            tile_x + c.x,
            tile_y + c.y,
        ) {
            1int
        } else {
            0int
        }
    }
}

/// The particle-burst events of one tile's collision pass: one per
/// collected can, at the can's world position, in can order.
pub open spec fn collect_events(
    cans: Seq<GarbageCan>,
    tile_x: int,
    tile_y: int,
    tx: int,
    ty: int,
) -> Seq<GameEvent>
    decreases cans.len(),
{
    if cans.len() == 0 {
        Seq::empty()
    } else {
        let rest = collect_events(cans.drop_last(), tile_x, tile_y, tx, ty);
        let c = cans.last();
        if near(tx, ty, tile_x + c.x, tile_y + c.y) {
            rest.push(
                GameEvent::Collected { x: (tile_x + c.x) as i64, y: (tile_y + c.y) as i64 },
            )
        } else {
            rest
        }
    }
}

/// Every can the truck collects is gone afterwards, none of the rest is,
/// and the score grows by exactly the number collected.
pub proof fn lemma_collision_scoring(
    cans: Seq<GarbageCan>,
    tile_x: int,
    tile_y: int,
    tx: int,
    ty: int,
)
    ensures
        surviving_cans(cans, tile_x, tile_y, tx, ty).len() + collected_count(
            cans,
            tile_x,
            tile_y,
            tx,
            ty,
        ) == cans.len(),
        0 <= collected_count(cans, tile_x, tile_y, tx, ty) <= cans.len(),
        forall|k: int|
            0 <= k < surviving_cans(cans, tile_x, tile_y, tx, ty).len() ==> !near(
                tx,
                ty,
                tile_x + surviving_cans(cans, tile_x, tile_y, tx, ty)[k].x,
                tile_y + surviving_cans(cans, tile_x, tile_y, tx, ty)[k].y,
            ),
    decreases cans.len(),
{
    if cans.len() > 0 {
        lemma_collision_scoring(cans.drop_last(), tile_x, tile_y, tx, ty);
    }
}

/// Squared-distance collision test against the truck.
fn is_near(tx: i64, ty: i64, px: i64, py: i64) -> (r: bool)
    requires
        -2 * WORLD_CAP <= tx <= 2 * WORLD_CAP,
        -2 * WORLD_CAP <= ty <= 2 * WORLD_CAP,
        -2 * WORLD_CAP <= px <= 2 * WORLD_CAP,
        -2 * WORLD_CAP <= py <= 2 * WORLD_CAP,
    ensures
        r == near(tx as int, ty as int, px as int, py as int),
{
    let dx: i128 = (px as i128) - (tx as i128);
    let dy: i128 = (py as i128) - (ty as i128);
    proof {
        assert(0 <= dx * dx < 1_000_000_000_000_000_000_000_000_000int && 0 <= dy * dy
            < 1_000_000_000_000_000_000_000_000_000int) by (nonlinear_arith)
            requires
                -17_592_207_015_936 <= dx <= 17_592_207_015_936,
                -17_592_207_015_936 <= dy <= 17_592_207_015_936,
        ;
        assert(COLLISION_RADIUS * COLLISION_RADIUS == 2500) by (nonlinear_arith)
            requires
                COLLISION_RADIUS == 50,
        ;
    }
    dx * dx + dy * dy < (COLLISION_RADIUS as i128) * (COLLISION_RADIUS as i128)
}

/// The collision pass over one tile's cans: returns the kept cans and
/// appends one collected event per removed can.
fn collide_cans(
    cans: &Vec<GarbageCan>,
    tile_x: i64,
    tile_y: i64,
    tx: i64,
    ty: i64,
    events: &mut Vec<GameEvent>,
) -> (kept: Vec<GarbageCan>)
    requires
        -WORLD_CAP <= tile_x <= WORLD_CAP,
        -WORLD_CAP <= tile_y <= WORLD_CAP,
        -POS_CAP <= tx <= POS_CAP,
        -POS_CAP <= ty <= POS_CAP,
        forall|j: int|
            0 <= j < cans@.len() ==> -SIZE_CAP <= (#[trigger] cans@[j]).x <= SIZE_CAP && -SIZE_CAP
                <= cans@[j].y <= SIZE_CAP,
    ensures
        kept@ == surviving_cans(cans@, tile_x as int, tile_y as int, tx as int, ty as int),
        final(events)@ == old(events)@ + collect_events(
            cans@,
            tile_x as int,
            tile_y as int,
            tx as int,
            ty as int,
        ),
{
    let mut kept: Vec<GarbageCan> = Vec::new();
    let mut j: usize = 0;
    proof {
        assert(cans@.subrange(0, 0) =~= Seq::<GarbageCan>::empty());
        assert(events@ =~= old(events)@ + Seq::<GameEvent>::empty());
    }
    while j < cans.len()
        invariant
            0 <= j <= cans@.len(),
            -WORLD_CAP <= tile_x <= WORLD_CAP,
            -WORLD_CAP <= tile_y <= WORLD_CAP,
            -POS_CAP <= tx <= POS_CAP,
            -POS_CAP <= ty <= POS_CAP,
            forall|k: int|
                0 <= k < cans@.len() ==> -SIZE_CAP <= (#[trigger] cans@[k]).x <= SIZE_CAP
                    && -SIZE_CAP <= cans@[k].y <= SIZE_CAP,
            kept@ == surviving_cans(
                cans@.subrange(0, j as int),
                tile_x as int,
                tile_y as int,
                tx as int,
                ty as int,
            ),
            events@ == old(events)@ + collect_events(
                cans@.subrange(0, j as int),
                tile_x as int,
                tile_y as int,
                tx as int,
                ty as int,
            ),
        decreases cans@.len() - j,
    {
        let c = cans[j];
        let px: i64 = tile_x + c.x;
        let py: i64 = tile_y + c.y;
        proof {
            assert(cans@.subrange(0, j + 1).drop_last() =~= cans@.subrange(0, j as int));
            assert(cans@.subrange(0, j + 1).last() == cans@[j as int]);
        }
        if is_near(tx, ty, px, py) {
            events.push(GameEvent::Collected { x: px, y: py });
        } else {
            kept.push(c);
        }
        j = j + 1;
    }
    proof {
        assert(cans@.subrange(0, cans@.len() as int) =~= cans@);
    }
    kept
}

/// A tile whose coordinates the collision arithmetic can hold.
pub open spec fn tile_in_world(t: Background) -> bool {
    &&& -WORLD_CAP <= t.x <= WORLD_CAP
    &&& -WORLD_CAP <= t.y <= WORLD_CAP
    &&& forall|j: int|
        0 <= j < t.cans@.len() ==> -SIZE_CAP <= (#[trigger] t.cans@[j]).x <= SIZE_CAP && -SIZE_CAP
            <= t.cans@[j].y <= SIZE_CAP
}

/// Cans over all tiles together.
pub open spec fn total_cans(tiles: Seq<Background>) -> int
    decreases tiles.len(),
{
    if tiles.len() == 0 {
        0
    } else {
        total_cans(tiles.drop_last()) + tiles.last().cans@.len()
    }
}

/// Cans the truck collects this tick, over all tiles.
pub open spec fn total_collected(tiles: Seq<Background>, tx: int, ty: int) -> int
    decreases tiles.len(),
{
    if tiles.len() == 0 {
        0
    } else {
        let t = tiles.last();
        total_collected(tiles.drop_last(), tx, ty) + collected_count(
            t.cans@,
            t.x as int,
            t.y as int,
            tx,
            ty,
        )
    }
}

/// The collected events of every tile, in tile order.
pub open spec fn all_collect_events(tiles: Seq<Background>, tx: int, ty: int) -> Seq<GameEvent>
    decreases tiles.len(),
{
    if tiles.len() == 0 {
        Seq::empty()
    } else {
        let t = tiles.last();
        all_collect_events(tiles.drop_last(), tx, ty) + collect_events(
            t.cans@,
            t.x as int,
            t.y as int,
            tx,
            ty,
        )
    }
}

/// What one collision pass does to the tiles: every tile keeps its place
/// and loses exactly the cans within collection distance of the truck.
pub open spec fn collisions_applied(
    before: Seq<Background>,
    after: Seq<Background>,
    tx: int,
    ty: int,
) -> bool {
    &&& after.len() == before.len()
    &&& forall|i: int|
        0 <= i < before.len() ==> {
            &&& (#[trigger] after[i]).grid_x == before[i].grid_x
            &&& after[i].grid_y == before[i].grid_y
            &&& after[i].x == before[i].x
            &&& after[i].y == before[i].y
            &&& after[i].cans@ == surviving_cans(
                before[i].cans@,
                before[i].x as int,
                before[i].y as int,
                tx,
                ty,
            )
        }
}

/// Each tick, remove every live can within `COLLISION_RADIUS` of the
/// truck, raise the score by the number removed, and emit one collected
/// event per removed can at the can's world position.
pub fn check_collisions(truck: &Truck, tiles: &mut Vec<Background>, score: &mut Score) -> (events:
    Vec<GameEvent>)
    requires
        -POS_CAP <= truck.x <= POS_CAP,
        -POS_CAP <= truck.y <= POS_CAP,
        forall|i: int| 0 <= i < old(tiles)@.len() ==> tile_in_world(#[trigger] old(tiles)@[i]),
        old(score).0 + total_cans(old(tiles)@) <= u32::MAX,
    ensures
        collisions_applied(old(tiles)@, final(tiles)@, truck.x as int, truck.y as int),
        final(score).0 == old(score).0 + total_collected(
            old(tiles)@,
            truck.x as int,
            truck.y as int,
        ),
        events@ == all_collect_events(old(tiles)@, truck.x as int, truck.y as int),
{
    let tx = truck.x;
    let ty = truck.y;
    let ghost tiles0 = tiles@;
    let mut events: Vec<GameEvent> = Vec::new();
    let mut i: usize = 0;
    proof {
        assert(tiles0.subrange(0, 0) =~= Seq::<Background>::empty());
        assert(events@ =~= all_collect_events(tiles0.subrange(0, 0), tx as int, ty as int));
        lemma_total_cans_split(tiles0, 0);
    }
    while i < tiles.len()
        invariant
            0 <= i <= tiles0.len(),
            tiles@.len() == tiles0.len(),
            -POS_CAP <= tx <= POS_CAP,
            -POS_CAP <= ty <= POS_CAP,
            forall|k: int| 0 <= k < tiles0.len() ==> tile_in_world(#[trigger] tiles0[k]),
            forall|k: int| i as int <= k < tiles0.len() ==> tiles@[k] == tiles0[k],
            collisions_applied(
                tiles0.subrange(0, i as int),
                tiles@.subrange(0, i as int),
                tx as int,
                ty as int,
            ),
            score.0 == old(score).0 + total_collected(
                tiles0.subrange(0, i as int),
                tx as int,
                ty as int,
            ),
            score.0 + total_cans(tiles0.subrange(i as int, tiles0.len() as int)) <= u32::MAX,
            events@ == all_collect_events(tiles0.subrange(0, i as int), tx as int, ty as int),
        decreases tiles0.len() - i,
    {
        proof {
            assert(tiles@[i as int] == tiles0[i as int]);
            assert(tile_in_world(tiles0[i as int]));
        }
        let tile_x = tiles[i].x;
        let tile_y = tiles[i].y;
        let tile_gx = tiles[i].grid_x;
        let tile_gy = tiles[i].grid_y;
        let n = tiles[i].cans.len();
        let kept = collide_cans(&tiles[i].cans, tile_x, tile_y, tx, ty, &mut events);
        proof {
            lemma_collision_scoring(
                tiles0[i as int].cans@,
                tile_x as int,
                tile_y as int,
                tx as int,
                ty as int,
            );
            lemma_total_cans_split(tiles0, i as int);
            lemma_total_cans_split(tiles0, i as int + 1);
            assert(tiles0.subrange(i as int, tiles0.len() as int).drop_first() =~= tiles0.subrange(
                i as int + 1,
                tiles0.len() as int,
            ));
            lemma_total_cans_first(tiles0.subrange(i as int, tiles0.len() as int));
        }
        let removed: usize = n - kept.len();
        score.0 = score.0 + (removed as u32);
        let updated = Background { grid_x: tile_gx, grid_y: tile_gy, x: tile_x, y: tile_y, cans: kept };
        let ghost before_set = tiles@;
        tiles.set(i, updated);
        proof {
            let pre = tiles0.subrange(0, i as int);
            let pre1 = tiles0.subrange(0, i as int + 1);
            assert(pre1.drop_last() =~= pre);
            assert(pre1.last() == tiles0[i as int]);
            let post = tiles@.subrange(0, i as int + 1);
            assert(tiles@[i as int] == updated);
            assert forall|k: int| 0 <= k < pre1.len() implies {
                &&& (#[trigger] post[k]).grid_x == pre1[k].grid_x
                &&& post[k].grid_y == pre1[k].grid_y
                &&& post[k].x == pre1[k].x
                &&& post[k].y == pre1[k].y
                &&& post[k].cans@ == surviving_cans(
                    pre1[k].cans@,
                    pre1[k].x as int,
                    pre1[k].y as int,
                    tx as int,
                    ty as int,
                )
            } by {
                if k < i as int {
                    assert(post[k] == before_set[k]);
                    assert(before_set.subrange(0, i as int)[k] == before_set[k]);
                } else {
                    assert(post[k] == updated);
                }
            }
        }
        i = i + 1;
    }
    proof {
        assert(tiles0.subrange(0, tiles0.len() as int) =~= tiles0);
        assert(tiles@.subrange(0, tiles@.len() as int) =~= tiles@);
    }
    events
}

/// Splitting the can total of a tile row at any index.
proof fn lemma_total_cans_split(tiles: Seq<Background>, i: int)
    requires
        0 <= i <= tiles.len(),
    ensures
        total_cans(tiles) == total_cans(tiles.subrange(0, i)) + total_cans(
            tiles.subrange(i, tiles.len() as int),
        ),
        total_cans(tiles.subrange(0, i)) >= 0,
        total_cans(tiles.subrange(i, tiles.len() as int)) >= 0,
    decreases tiles.len(),
{
    if tiles.len() == 0 {
        assert(tiles.subrange(0, i) =~= tiles);
        assert(tiles.subrange(i, tiles.len() as int) =~= tiles);
    } else if i == tiles.len() {
        assert(tiles.subrange(0, i) =~= tiles);
        assert(tiles.subrange(i, tiles.len() as int) =~= Seq::<Background>::empty());
        lemma_total_cans_nonneg(tiles);
    } else {
        lemma_total_cans_split(tiles.drop_last(), i);
        assert(tiles.drop_last().subrange(0, i) =~= tiles.subrange(0, i));
        assert(tiles.subrange(i, tiles.len() as int).drop_last() =~= tiles.drop_last().subrange(
            i,
            tiles.drop_last().len() as int,
        ));
    }
}

/// The can total is never negative.
proof fn lemma_total_cans_nonneg(tiles: Seq<Background>)
    ensures
        total_cans(tiles) >= 0,
    decreases tiles.len(),
{
    if tiles.len() > 0 {
        lemma_total_cans_nonneg(tiles.drop_last());
    }
}

/// One tiler pass adds at most `MAX_CANS - 1` cans per tile.
proof fn lemma_total_cans_updated(
    before: Seq<Background>,
    after: Seq<Background>,
    cam_x: int,
    cam_y: int,
    w: int,
    h: int,
)
    requires
        tiles_updated(before, after, cam_x, cam_y, w, h),
    ensures
        total_cans(after) <= total_cans(before) + (MAX_CANS - 1) * before.len(),
    decreases before.len(),
{
    if before.len() > 0 {
        assert(tiles_updated(before.drop_last(), after.drop_last(), cam_x, cam_y, w, h));
        lemma_total_cans_updated(before.drop_last(), after.drop_last(), cam_x, cam_y, w, h);
    }
}

/// The tile edge lengths reported by the loaded background image, in
/// world units.
#[derive(Clone, Copy, PartialEq, Eq, Structural, Debug)]
pub struct TileSize {
    pub width: i64,
    pub height: i64,
}

/// The events of the steering phase: the quit request first, then the
/// backup-alarm transition, each only on the tick it happens.
pub open spec fn steer_events(input: TruckInput, was_active: bool) -> Seq<GameEvent> {
    let quit = if input.quit {
        seq![GameEvent::ExitRequested]
    } else {
        Seq::empty()
    };
    let alarm = if input.reverse && !was_active {
        seq![GameEvent::AlarmStarted]
    } else if !input.reverse && was_active {
        seq![GameEvent::AlarmStopped]
    } else {
        Seq::empty()
    };
    quit + alarm
}

/// The whole simulation state: the truck, the rigidly following camera,
/// the 3x3 tile ring, the score and the backup-alarm controller.
pub struct World {
    pub truck: Truck,
    pub camera_x: i64,
    pub camera_y: i64,
    pub tiles: Vec<Background>,
    pub score: Score,
    pub alarm: BackupAudioController,
}

impl World {
    /// The startup world: truck and camera at the origin, heading up,
    /// score zero, alarm silent, and the initial 3x3 tile ring.
    pub fn new() -> (w: World)
        ensures
            w.truck.x == 0,
            w.truck.y == 0,
            w.truck.direction == 0,
            w.camera_x == 0,
            w.camera_y == 0,
            w.score.0 == 0,
            !w.alarm.active,
            initial_layout(w.tiles@),
    {
        let score: Score = Default::default();
        World {
            truck: Truck { x: 0, y: 0, direction: 0 },
            camera_x: 0,
            camera_y: 0,
            tiles: setup_environment(),
            score,
            alarm: BackupAudioController { active: false },
        }
    }

    /// Keep the camera glued to the truck: both coordinates copied,
    /// every tick, with no smoothing.
    pub fn camera_follow(&mut self)
        ensures
            final(self).camera_x == old(self).truck.x,
            final(self).camera_y == old(self).truck.y,
            final(self).truck == old(self).truck,
            final(self).tiles == old(self).tiles,
            final(self).score == old(self).score,
            final(self).alarm == old(self).alarm,
    {
        self.camera_x = self.truck.x;
        self.camera_y = self.truck.y;
    }

    /// The input phase of one tick: register a quit request, move the
    /// backup alarm across its edge-triggered transitions, and steer the
    /// truck's heading. Returns the phase's events in order.
    pub fn steer(&mut self, input: &TruckInput, dt_ms: u32) -> (events: Vec<GameEvent>)
        requires
            dt_ms <= MAX_TICK_MILLIS,
            -HEADING_CAP <= old(self).truck.direction <= HEADING_CAP,
        ensures
            final(self).truck.direction == old(self).truck.direction + ROTATION_SPEED
                * turn_input(*input) * (ANGLE_SCALE / MILLIS_PER_SECOND) * dt_ms,
            final(self).truck.x == old(self).truck.x,
            final(self).truck.y == old(self).truck.y,
            final(self).alarm.active == input.reverse,
            final(self).camera_x == old(self).camera_x,
            final(self).camera_y == old(self).camera_y,
            final(self).tiles == old(self).tiles,
            final(self).score == old(self).score,
            events@ == steer_events(*input, old(self).alarm.active),
    {
        let mut events: Vec<GameEvent> = Vec::new();
        if input.quit {
            events.push(GameEvent::ExitRequested);
        }
        let transitions = self.alarm.update(input.reverse);
        if transitions.0 {
            events.push(GameEvent::AlarmStarted);
        }
        if transitions.1 {
            events.push(GameEvent::AlarmStopped);
        }
        self.truck.steer(input, dt_ms);
        proof {
            assert(events@ =~= steer_events(*input, old(self).alarm.active));
        }
        events
    }

    /// The movement and world phase of one tick: drive the truck along
    /// the supplied forward vector, follow with the camera, wrap and
    /// regenerate the tiles when a tile size is known (a missing size
    /// skips the tiler for the tick), then collect cans, score them and
    /// report the collected events.
    pub fn advance(
        &mut self,
        input: &TruckInput,
        dir_x: i64,
        dir_y: i64,
        dt_ms: u32,
        tile_size: Option<TileSize>,
    ) -> (events: Vec<GameEvent>)
        requires
            dt_ms <= MAX_TICK_MILLIS,
            -DIR_SCALE <= dir_x <= DIR_SCALE,
            -DIR_SCALE <= dir_y <= DIR_SCALE,
            -(POS_CAP - MAX_TICK_DISTANCE) <= old(self).truck.x <= POS_CAP - MAX_TICK_DISTANCE,
            -(POS_CAP - MAX_TICK_DISTANCE) <= old(self).truck.y <= POS_CAP - MAX_TICK_DISTANCE,
            tile_size matches Some(ts) ==> MIN_TILE_SIZE <= ts.width <= SIZE_CAP
                && MIN_TILE_SIZE <= ts.height <= SIZE_CAP,
            forall|i: int|
                0 <= i < old(self).tiles@.len() ==> tile_in_caps(#[trigger] old(self).tiles@[i])
                    && tile_in_world(old(self).tiles@[i]),
            old(self).score.0 + total_cans(old(self).tiles@) + (MAX_CANS - 1)
                * old(self).tiles@.len() <= u32::MAX,
        ensures
            ({
                let moved_x = old(self).truck.x + displacement(
                    dir_x as int,
                    accel_halves(*input),
                    dt_ms as int,
                );
                let moved_y = old(self).truck.y + displacement(
                    dir_y as int,
                    accel_halves(*input),
                    dt_ms as int,
                );
                &&& final(self).truck.x == moved_x
                &&& final(self).truck.y == moved_y
                &&& final(self).truck.direction == old(self).truck.direction
                &&& final(self).camera_x == moved_x
                &&& final(self).camera_y == moved_y
                &&& final(self).alarm == old(self).alarm
                &&& exists|mid: Seq<Background>|
                    {
                        &&& (match tile_size {
                            Option::None => mid == old(self).tiles@,
                            Option::Some(ts) => tiles_updated(
                                old(self).tiles@,
                                mid,
                                moved_x as int,
                                moved_y as int,
                                ts.width as int,
                                ts.height as int,
                            ),
                        })
                        &&& #[trigger] collisions_applied(
                            mid,
                            final(self).tiles@,
                            moved_x as int,
                            moved_y as int,
                        )
                        &&& final(self).score.0 == old(self).score.0 + total_collected(
                            mid,
                            moved_x as int,
                            moved_y as int,
                        )
                        &&& events@ == all_collect_events(mid, moved_x as int, moved_y as int)
                    }
            }),
    {
        proof {
            lemma_displacement_bound(dir_x as int, accel_halves(*input), dt_ms as int);
            lemma_displacement_bound(dir_y as int, accel_halves(*input), dt_ms as int);
        }
        self.truck.drive(input, dir_x, dir_y, dt_ms);
        self.camera_follow();
        let ghost tiles_before = self.tiles@;
        if let Some(ts) = tile_size {
            update_background(&mut self.tiles, self.camera_x, self.camera_y, ts.width, ts.height);
        }
        let ghost mid = self.tiles@;
        proof {
            if tile_size is Some {
                lemma_total_cans_updated(
                    tiles_before,
                    mid,
                    self.camera_x as int,
                    self.camera_y as int,
                    tile_size->Some_0.width as int,
                    tile_size->Some_0.height as int,
                );
            }
            assert forall|i: int| 0 <= i < mid.len() implies tile_in_world(#[trigger] mid[i]) by {
                if tile_size is Some {
                    assert(tile_in_caps(tiles_before[i]) && tile_in_world(tiles_before[i]));
                } else {
                    assert(mid[i] == tiles_before[i]);
                    assert(tile_in_world(tiles_before[i]));
                }
            }
        }
        let events = check_collisions(&self.truck, &mut self.tiles, &mut self.score);
        proof {
            let moved_x = self.truck.x as int;
            let moved_y = self.truck.y as int;
            assert(collisions_applied(mid, self.tiles@, moved_x, moved_y));
        }
        events
    }
}

/// Peeling the first tile off the can total.
proof fn lemma_total_cans_first(tiles: Seq<Background>)
    requires
        tiles.len() > 0,
    ensures
        total_cans(tiles) == tiles.first().cans@.len() + total_cans(tiles.drop_first()),
    decreases tiles.len(),
{
    if tiles.len() == 1 {
        assert(tiles.drop_first() =~= Seq::<Background>::empty());
        assert(tiles.drop_last() =~= Seq::<Background>::empty());
    } else {
        lemma_total_cans_first(tiles.drop_last());
        assert(tiles.drop_last().drop_first() =~= tiles.drop_first().drop_last());
        assert(tiles.drop_last().first() == tiles.first());
        assert(tiles.drop_first().last() == tiles.last());
    }
}

} // verus!
