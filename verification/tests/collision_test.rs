use garbage_truck::environment::{Background, GarbageCan};
use garbage_truck::game::{check_collisions, GameEvent};
use garbage_truck::truck::Truck;
use garbage_truck::ui::Score;

#[test]
fn test_truck_can_collision() {
    let mut score = Score(0);

    // Truck at origin.
    let truck = Truck { x: 0, y: 0, direction: 0 };

    // Garbage can within collision range (distance < 50).
    let mut tiles = vec![Background {
        grid_x: 0,
        grid_y: 0,
        x: 0,
        y: 0,
        cans: vec![GarbageCan { x: 30, y: 0 }],
    }];

    let events = check_collisions(&truck, &mut tiles, &mut score);

    // Verify score incremented.
    assert_eq!(score.0, 1);

    // Verify garbage can removed.
    assert!(tiles[0].cans.is_empty());

    // Verify one particle effect spawned, at the can's position.
    assert_eq!(events.len(), 1);
    assert_eq!(events[0], GameEvent::Collected { x: 30, y: 0 });
}

#[test]
fn test_no_collision_when_far() {
    let mut score = Score(0);

    let truck = Truck { x: 0, y: 0, direction: 0 };

    // Garbage can outside collision range (distance > 50).
    let mut tiles = vec![Background {
        grid_x: 0,
        grid_y: 0,
        x: 0,
        y: 0,
        cans: vec![GarbageCan { x: 60, y: 0 }],
    }];

    let events = check_collisions(&truck, &mut tiles, &mut score);

    assert_eq!(score.0, 0);

    // The can is still there, and no particle event was emitted.
    assert_eq!(tiles[0].cans.len(), 1);
    assert_eq!(tiles[0].cans[0], GarbageCan { x: 60, y: 0 });
    assert!(events.is_empty());
}
