use battleship_bot::{
    destroy, get_hits, random_destroy, random_find, valid_shot_any, Boat, BoatMap, Pos, Shot,
    ShotMap,
};

#[test]
fn test_destroy_single_hit() {
    let mut shots = ShotMap::empty();
    shots.set(1, 1, Shot::Hit(Boat::Cruiser));

    let possible = [Pos::new(0, 1), Pos::new(2, 1), Pos::new(1, 0), Pos::new(1, 2)];

    for _ in 0..100 {
        let shot = destroy(&shots).expect("a wounded boat must yield a shot here");
        assert!(possible.contains(&shot));
    }
}

#[test]
fn test_destroy_two_hits() {
    let mut shots = ShotMap::empty();
    shots.set(1, 1, Shot::Hit(Boat::Cruiser));
    shots.set(1, 2, Shot::Hit(Boat::Cruiser));

    let possible = [Pos::new(1, 0), Pos::new(1, 3)];

    for _ in 0..100 {
        let shot = destroy(&shots).expect("a wounded boat must yield a shot here");
        assert!(possible.contains(&shot));
    }
}

#[test]
fn test_destroy_no_target() {
    let mut shots = ShotMap::empty();
    assert!(destroy(&shots).is_none());
    assert!(random_destroy(&shots).is_none());

    // A fully sunk boat is no target either.
    shots.set(4, 4, Shot::Hit(Boat::Destroyer));
    shots.set(5, 4, Shot::Hit(Boat::Destroyer));
    assert!(destroy(&shots).is_none());
    assert!(random_destroy(&shots).is_none());
}

#[test]
fn test_destroy_fenced_in() {
    let mut shots = ShotMap::empty();
    shots.set(0, 0, Shot::Hit(Boat::Destroyer));
    shots.set(1, 0, Shot::Miss);
    shots.set(0, 1, Shot::Miss);

    assert!(destroy(&shots).is_none());
    assert!(random_destroy(&shots).is_none());
}

#[test]
fn test_destroy_prefers_shortest_boat() {
    let mut shots = ShotMap::empty();
    // Both a Carrier and a Destroyer are wounded; the Destroyer comes first
    // in the canonical order, so its line is continued.
    shots.set(7, 7, Shot::Hit(Boat::Carrier));
    shots.set(2, 2, Shot::Hit(Boat::Destroyer));
    shots.set(3, 2, Shot::Hit(Boat::Destroyer));
    // Three hits do not sink a Carrier (length 5), two sink a Destroyer, so
    // wound the Carrier some more to keep it in progress.
    shots.set(7, 8, Shot::Hit(Boat::Carrier));

    // The Destroyer is sunk (two hits), so the Carrier is the target.
    let possible = [Pos::new(7, 6), Pos::new(7, 9)];
    for _ in 0..50 {
        let shot = destroy(&shots).expect("a wounded boat must yield a shot here");
        assert!(possible.contains(&shot));
    }

    // Wound a Submarine as well: it now outranks the Carrier.
    shots.set(5, 5, Shot::Hit(Boat::Submarine));
    let possible = [Pos::new(4, 5), Pos::new(6, 5), Pos::new(5, 4), Pos::new(5, 6)];
    for _ in 0..50 {
        let shot = destroy(&shots).expect("a wounded boat must yield a shot here");
        assert!(possible.contains(&shot));
    }
}

#[test]
fn test_get_hits_scan_order() {
    let mut shots = ShotMap::empty();
    shots.set(3, 7, Shot::Hit(Boat::Carrier));
    shots.set(0, 2, Shot::Hit(Boat::Destroyer));
    shots.set(3, 1, Shot::Hit(Boat::Carrier));
    shots.set(9, 9, Shot::Miss);

    let hits = get_hits(&shots);
    assert_eq!(
        hits,
        vec![
            (Boat::Destroyer, 0, 2),
            (Boat::Carrier, 3, 1),
            (Boat::Carrier, 3, 7),
        ]
    );
}

#[test]
fn test_valid_shot_any_bounds() {
    let mut shots = ShotMap::empty();
    shots.set(4, 4, Shot::Miss);

    assert!(!valid_shot_any(&shots, -1, 0));
    assert!(!valid_shot_any(&shots, 0, -1));
    assert!(!valid_shot_any(&shots, 10, 0));
    assert!(!valid_shot_any(&shots, 0, 10));
    assert!(!valid_shot_any(&shots, 4, 4));
    assert!(valid_shot_any(&shots, 4, 5));
}

#[test]
fn test_random_find_last_cell() {
    let mut shots = ShotMap::empty();
    for x in 0..10 {
        for y in 0..10 {
            if !(x == 7 && y == 3) {
                shots.set(x, y, Shot::Miss);
            }
        }
    }

    for _ in 0..10 {
        assert_eq!(random_find(&shots), Pos::new(7, 3));
    }
}

#[test]
fn test_boat_lengths() {
    let mut boats = BoatMap::empty();
    assert!(boats.get(0, 0).is_empty());
    assert!(!boats.get(0, 0).has_some());

    boats.set(0, 0, Boat::Carrier);
    assert!(boats.is_hit(0, 0));
    assert!(!boats.is_hit(0, 1));

    assert_eq!(Boat::Destroyer.length(), 2);
    assert_eq!(Boat::Submarine.length(), 3);
    assert_eq!(Boat::Cruiser.length(), 3);
    assert_eq!(Boat::Battleship.length(), 4);
    assert_eq!(Boat::Carrier.length(), 5);
    assert_eq!(battleship_bot::length(Boat::Carrier), 5);
}
