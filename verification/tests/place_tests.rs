use battleship_bot::{cluster, overlaps, place_boat, sides, spread, Boat, BoatMap, Pos};

const BOATS: [Boat; 5] = [
    Boat::Destroyer,
    Boat::Submarine,
    Boat::Cruiser,
    Boat::Battleship,
    Boat::Carrier,
];

fn one_boat(boat: Boat, pos: Pos, horizontal: bool) -> BoatMap {
    let mut boats = BoatMap::empty();

    place_boat(&mut boats, boat, horizontal, pos);

    boats
}

fn is_horizontal(boats: &BoatMap, x: usize, y: usize) -> bool {
    let boat = boats.get(x, y);
    let mut horizontal = false;
    if x > 0 {
        horizontal = boats.get(x - 1, y) == boat;
    }
    if x < 9 {
        horizontal = horizontal || boats.get(x + 1, y) == boat;
    }

    horizontal
}

fn is_vertical(boats: &BoatMap, x: usize, y: usize) -> bool {
    let boat = boats.get(x, y);
    let mut vertical = false;
    if y > 0 {
        vertical = boats.get(x, y - 1) == boat;
    }
    if y < 9 {
        vertical = vertical || boats.get(x, y + 1) == boat;
    }

    vertical
}

#[test]
fn test_overlaps_horizontal() {
    let boats = one_boat(Boat::Destroyer, Pos::new(1, 0), false);

    assert!(overlaps(&boats, Boat::Destroyer, true, Pos::new(0, 0)));
    assert!(!overlaps(&boats, Boat::Destroyer, false, Pos::new(0, 0)));
    assert!(overlaps(&boats, Boat::Destroyer, true, Pos::new(0, 1)));
    assert!(!overlaps(&boats, Boat::Destroyer, true, Pos::new(0, 2)));

    let boats = one_boat(Boat::Destroyer, Pos::new(2, 0), false);

    assert!(!overlaps(&boats, Boat::Destroyer, true, Pos::new(0, 0)));
    for boat in BOATS {
        if boat == Boat::Destroyer {
            continue;
        }

        assert!(overlaps(&boats, boat, true, Pos::new(0, 0)));

        assert!(!overlaps(&boats, boat, false, Pos::new(0, 0)));
    }
}

#[test]
fn test_overlaps_vertical() {
    let boats = one_boat(Boat::Destroyer, Pos::new(0, 1), true);

    assert!(overlaps(&boats, Boat::Destroyer, false, Pos::new(0, 0)));
    assert!(!overlaps(&boats, Boat::Destroyer, true, Pos::new(0, 0)));
    assert!(overlaps(&boats, Boat::Destroyer, false, Pos::new(1, 0)));
    assert!(!overlaps(&boats, Boat::Destroyer, false, Pos::new(2, 0)));

    let boats = one_boat(Boat::Destroyer, Pos::new(0, 2), true);

    assert!(!overlaps(&boats, Boat::Destroyer, false, Pos::new(0, 0)));
    for boat in BOATS {
        if boat == Boat::Destroyer {
            continue;
        }

        assert!(overlaps(&boats, boat, false, Pos::new(0, 0)));

        assert!(!overlaps(&boats, boat, true, Pos::new(0, 0)));
    }
}

fn check_sides() {
    let boats = sides();

    for x in 0..10 {
        for y in 0..10 {
            if boats.get(x, y) != Boat::Empty {
                if (2..=7).contains(&x) {
                    assert!(is_horizontal(&boats, x, y));
                }
                if (2..=7).contains(&y) {
                    assert!(is_vertical(&boats, x, y));
                }
            }
        }
    }
}

#[test]
fn test_sides_100() {
    for _ in 0..100 {
        check_sides();
    }
}

fn check_spread() {
    let boats = spread();

    for x in 0..10 {
        for y in 0..10 {
            match boats.get(x, y) {
                Boat::Destroyer => {
                    assert!(x <= 5);
                    assert!(y <= 5);
                }
                Boat::Submarine => {
                    assert!(x >= 6);
                    assert!(y <= 5);
                }
                Boat::Cruiser => {
                    assert!(x <= 5);
                    assert!(y >= 6);
                }
                Boat::Battleship => {
                    assert!(x >= 5);
                    assert!(y >= 5);
                }
                _ => (),
            }
        }
    }
}

#[test]
fn test_spread_100() {
    for _ in 0..100 {
        check_spread();
    }
}

fn check_cluster() {
    let boats = cluster();

    for x in 0..10 {
        for y in 0..10 {
            if boats.get(x, y) != Boat::Empty {
                assert!((2..=7).contains(&x));
                assert!((2..=7).contains(&y));
            }
        }
    }
}

#[test]
fn test_cluster_100() {
    for _ in 0..100 {
        check_cluster();
    }
}
