use garbage_truck::environment::{Background, GarbageCan, MAX_CANS, MIN_CANS};
use garbage_truck::game::{check_collisions, GameEvent, TileSize, World};
use garbage_truck::truck::{BackupAudioController, Truck, TruckInput};
use garbage_truck::ui::Score;

fn no_keys() -> TruckInput {
    TruckInput { left: false, right: false, forward: false, reverse: false, quit: false }
}

#[test]
fn test_startup_world() {
    let w = World::new();
    assert_eq!(w.truck.x, 0);
    assert_eq!(w.truck.y, 0);
    assert_eq!(w.truck.direction, 0);
    assert_eq!(w.camera_x, 0);
    assert_eq!(w.camera_y, 0);
    assert_eq!(w.score.0, 0);
    assert!(!w.alarm.active);
    assert_eq!(w.tiles.len(), 9);
    for (i, tile) in w.tiles.iter().enumerate() {
        let gx = (i as i64) / 3 - 1;
        let gy = (i as i64) % 3 - 1;
        assert_eq!(tile.grid_x, gx);
        assert_eq!(tile.grid_y, gy);
        assert_eq!(tile.x, gx * 1000);
        assert_eq!(tile.y, gy * 1000);
        // The random draw must produce a count inside the contract's
        // range with every can inside the fixed startup square.
        assert!(tile.cans.len() as i64 >= MIN_CANS);
        assert!((tile.cans.len() as i64) < MAX_CANS);
        for can in &tile.cans {
            assert!(-400 <= can.x && can.x < 400);
            assert!(-400 <= can.y && can.y < 400);
        }
    }
}

#[test]
fn test_steer_heading_formula() {
    let mut truck = Truck { x: 0, y: 0, direction: 0 };
    let right = TruckInput { right: true, ..no_keys() };
    // 3 rad/s for one second, in microradian heading units.
    truck.steer(&right, 1000);
    assert_eq!(truck.direction, 3_000_000);
    let left = TruckInput { left: true, ..no_keys() };
    truck.steer(&left, 500);
    assert_eq!(truck.direction, 1_500_000);
    // Both keys cancel; no key leaves the heading alone.
    let both = TruckInput { left: true, right: true, ..no_keys() };
    truck.steer(&both, 1000);
    assert_eq!(truck.direction, 1_500_000);
    truck.steer(&no_keys(), 1000);
    assert_eq!(truck.direction, 1_500_000);
}

#[test]
fn test_heading_grows_without_wrap() {
    // A long constant turn accumulates far past a full circle: the
    // heading is never reduced modulo anything.
    let mut truck = Truck { x: 0, y: 0, direction: 0 };
    let right = TruckInput { right: true, ..no_keys() };
    for _ in 0..100 {
        truck.steer(&right, 1000);
    }
    // 100 s at 3 rad/s: 300 rad, about 47 full turns.
    assert_eq!(truck.direction, 300_000_000);
}

#[test]
fn test_drive_formula() {
    let mut truck = Truck { x: 0, y: 0, direction: 0 };
    // Facing +x (unit vector scaled by a million), forward for one
    // second: 200 world units.
    let forward = TruckInput { forward: true, ..no_keys() };
    truck.drive(&forward, 1_000_000, 0, 1000);
    assert_eq!(truck.x, 200);
    assert_eq!(truck.y, 0);
    // Reverse runs at half speed, backwards.
    let reverse = TruckInput { reverse: true, ..no_keys() };
    truck.drive(&reverse, 1_000_000, 0, 1000);
    assert_eq!(truck.x, 100);
    // Both keys sum: half speed forward.
    let both = TruckInput { forward: true, reverse: true, ..no_keys() };
    truck.drive(&both, 0, 1_000_000, 1000);
    assert_eq!(truck.y, 100);
}

#[test]
fn test_tile_wrap_scenario() {
    // Camera at (1600, 0); tile previously at grid (-1, 0) with tile
    // width 1000: diff_x = -1000 - 1600 = -2600 < -1500, so the tile
    // shifts to grid (2, 0) at world x = 2000 and its cans are fully
    // regenerated.
    let mut tile = Background {
        grid_x: -1,
        grid_y: 0,
        x: -1000,
        y: 0,
        cans: vec![GarbageCan { x: 1, y: 2 }],
    };
    let wrapped = tile.update_tile(1600, 0, 1000, 1000);
    assert!(wrapped);
    assert_eq!(tile.grid_x, 2);
    assert_eq!(tile.grid_y, 0);
    assert_eq!(tile.x, 2000);
    assert_eq!(tile.y, 0);
    // The old single can is gone: a fresh set of at least MIN_CANS took
    // its place, each inside the margins.
    assert!(tile.cans.len() as i64 >= MIN_CANS);
    assert!((tile.cans.len() as i64) < MAX_CANS);
    for can in &tile.cans {
        assert!(-450 <= can.x && can.x < 450);
        assert!(-450 <= can.y && can.y < 450);
    }

    // Re-evaluating against the same camera must not trigger again: the
    // shifted position is outside the trigger band and fully settled.
    let cans_before: Vec<GarbageCan> = tile.cans.clone();
    let wrapped_again = tile.update_tile(1600, 0, 1000, 1000);
    assert!(!wrapped_again);
    assert_eq!(tile.grid_x, 2);
    assert_eq!(tile.x, 2000);
    assert_eq!(tile.cans, cans_before);
}

#[test]
fn test_tile_wrap_both_axes() {
    // Diagonal camera movement can wrap both axes in the same tick; the
    // cans regenerate once.
    let mut tile = Background { grid_x: -1, grid_y: -1, x: -1000, y: -1000, cans: Vec::new() };
    let wrapped = tile.update_tile(1600, 1600, 1000, 1000);
    assert!(wrapped);
    assert_eq!(tile.grid_x, 2);
    assert_eq!(tile.grid_y, 2);
    assert_eq!(tile.x, 2000);
    assert_eq!(tile.y, 2000);
    assert!(tile.cans.len() as i64 >= MIN_CANS);
}

#[test]
fn test_tile_snap_corrects_drift() {
    // A drifted position is snapped back to the nearest grid point.
    let mut tile = Background { grid_x: 0, grid_y: 0, x: 401, y: -499, cans: Vec::new() };
    let wrapped = tile.update_tile(0, 0, 1000, 1000);
    assert!(!wrapped);
    assert_eq!(tile.x, 0);
    assert_eq!(tile.y, 0);
    // Half a tile away rounds away from zero, as a float round would.
    let mut edge = Background { grid_x: 0, grid_y: 0, x: 500, y: -500, cans: Vec::new() };
    edge.update_tile(0, 0, 1000, 1000);
    assert_eq!(edge.x, 1000);
    assert_eq!(edge.y, -1000);
}

#[test]
fn test_collision_boundary() {
    // Collection needs a distance strictly below 50: a can at exactly 50
    // stays, one unit closer goes.
    let truck = Truck { x: 0, y: 0, direction: 0 };
    let mut score = Score(0);
    let mut tiles = vec![Background {
        grid_x: 0,
        grid_y: 0,
        x: 0,
        y: 0,
        cans: vec![GarbageCan { x: 50, y: 0 }, GarbageCan { x: 49, y: 0 }],
    }];
    let events = check_collisions(&truck, &mut tiles, &mut score);
    assert_eq!(score.0, 1);
    assert_eq!(tiles[0].cans.len(), 1);
    assert_eq!(tiles[0].cans[0], GarbageCan { x: 50, y: 0 });
    assert_eq!(events, vec![GameEvent::Collected { x: 49, y: 0 }]);
}

#[test]
fn test_simultaneous_collisions_all_processed() {
    // Several cans inside the radius in one tick are all collected, with
    // one event each, and the score counts every one of them.
    let truck = Truck { x: 10, y: 10, direction: 0 };
    let mut score = Score(5);
    let mut tiles = vec![
        Background {
            grid_x: 0,
            grid_y: 0,
            x: 0,
            y: 0,
            cans: vec![GarbageCan { x: 0, y: 0 }, GarbageCan { x: 500, y: 500 }],
        },
        Background {
            grid_x: 1,
            grid_y: 0,
            x: 1000,
            y: 0,
            cans: vec![GarbageCan { x: -980, y: 0 }],
        },
    ];
    let events = check_collisions(&truck, &mut tiles, &mut score);
    assert_eq!(score.0, 7);
    assert_eq!(tiles[0].cans.len(), 1);
    assert_eq!(tiles[1].cans.len(), 0);
    assert_eq!(
        events,
        vec![
            GameEvent::Collected { x: 0, y: 0 },
            GameEvent::Collected { x: 20, y: 0 },
        ]
    );
}

#[test]
fn test_reverse_alarm_edges() {
    // Reverse held for three consecutive ticks, then released: exactly
    // one alarm-start event on the first tick, none on the next two, and
    // exactly one alarm-stop on release.
    let mut world = World::new();
    let reverse = TruckInput { reverse: true, ..no_keys() };

    let events1 = world.steer(&reverse, 16);
    assert_eq!(events1, vec![GameEvent::AlarmStarted]);

    let events2 = world.steer(&reverse, 16);
    assert!(events2.is_empty());

    let events3 = world.steer(&reverse, 16);
    assert!(events3.is_empty());

    let events4 = world.steer(&no_keys(), 16);
    assert_eq!(events4, vec![GameEvent::AlarmStopped]);

    // Released while silent: still nothing.
    let events5 = world.steer(&no_keys(), 16);
    assert!(events5.is_empty());
}

#[test]
fn test_alarm_controller_transitions() {
    let mut alarm = BackupAudioController { active: false };
    assert_eq!(alarm.update(true), (true, false));
    assert_eq!(alarm.update(true), (false, false));
    assert_eq!(alarm.update(false), (false, true));
    assert_eq!(alarm.update(false), (false, false));
}

#[test]
fn test_quit_is_edge_event() {
    let mut world = World::new();
    let quit = TruckInput { quit: true, ..no_keys() };
    let events = world.steer(&quit, 16);
    assert_eq!(events, vec![GameEvent::ExitRequested]);
    // The key is reported as a fresh press only once by the driver.
    let events_after = world.steer(&no_keys(), 16);
    assert!(events_after.is_empty());
}

#[test]
fn test_advance_full_tick() {
    // One whole movement-and-world phase: truck still, camera follows,
    // tiler skipped (no size known), one can collected.
    let mut world = World::new();
    world.truck = Truck { x: 0, y: 0, direction: 0 };
    world.tiles = vec![Background {
        grid_x: 0,
        grid_y: 0,
        x: 0,
        y: 0,
        cans: vec![GarbageCan { x: 30, y: 0 }, GarbageCan { x: 800, y: 800 }],
    }];
    let events = world.advance(&no_keys(), 0, 1_000_000, 16, None);
    assert_eq!(world.truck.x, 0);
    assert_eq!(world.truck.y, 0);
    assert_eq!(world.camera_x, 0);
    assert_eq!(world.camera_y, 0);
    assert_eq!(world.score.0, 1);
    assert_eq!(world.tiles[0].cans.len(), 1);
    assert_eq!(events, vec![GameEvent::Collected { x: 30, y: 0 }]);
}

#[test]
fn test_advance_moves_and_wraps() {
    // Driving forward with a known tile size: the camera ends on the
    // truck and every tile ends settled on the grid.
    let mut world = World::new();
    let forward = TruckInput { forward: true, ..no_keys() };
    let events = world.advance(&forward, 0, 1_000_000, 1000, Some(TileSize { width: 1000, height: 1000 }));
    assert_eq!(world.truck.y, 200);
    assert_eq!(world.camera_x, world.truck.x);
    assert_eq!(world.camera_y, world.truck.y);
    for tile in &world.tiles {
        assert_eq!(tile.x % 1000, 0);
        assert_eq!(tile.y % 1000, 0);
    }
    // Nothing guarantees a collection here; events are collected cans only.
    for ev in &events {
        assert!(matches!(ev, GameEvent::Collected { .. }));
    }
}
