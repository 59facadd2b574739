use battleship_bot::{
    create_heatmap, grid_and_destroy, heatmap_and_destroy, random_and_destroy,
    random_and_random_destroy, valid_shot, Boat, Pos, Shot, ShotMap,
};

use rand::Rng;

#[test]
fn test_valid_shot() {
    let mut shots = ShotMap::empty();

    for x in 0..10 {
        for y in 0..10 {
            assert!(valid_shot(&shots, Pos::new(x, y)));
        }
    }

    assert!(!valid_shot(&shots, Pos::new(10, 0)));
    assert!(!valid_shot(&shots, Pos::new(0, 10)));
    assert!(!valid_shot(&shots, Pos::new(10, 10)));

    let mut rng = rand::thread_rng();

    for _ in 0..100 {
        let x = rng.gen_range(0..10);
        let y = rng.gen_range(0..10);

        if rand::random() {
            shots.set(x, y, Shot::Miss);
        } else {
            shots.set(x, y, Shot::Hit(Boat::Destroyer));
        }

        assert!(!valid_shot(&shots, Pos::new(x, y)));
    }
}

#[test]
fn test_random_and_random_destroy() {
    let mut shots = ShotMap::empty();

    shots.set(1, 1, Shot::Hit(Boat::Cruiser));
    shots.set(1, 2, Shot::Hit(Boat::Cruiser));

    let possible = [
        Pos::new(1, 0),
        Pos::new(1, 3),
        Pos::new(0, 1),
        Pos::new(0, 2),
        Pos::new(2, 1),
        Pos::new(2, 2),
    ];

    for _ in 0..100 {
        let shot = random_and_random_destroy(Pos::new(0, 0), &shots);

        assert!(possible.contains(&shot));
    }
}

#[test]
fn test_random_and_destroy() {
    let mut shots = ShotMap::empty();

    shots.set(1, 1, Shot::Hit(Boat::Cruiser));
    shots.set(1, 2, Shot::Hit(Boat::Cruiser));

    let possible = [Pos::new(1, 0), Pos::new(1, 3)];

    for _ in 0..100 {
        let shot = random_and_destroy(Pos::new(0, 0), &shots);

        assert!(possible.contains(&shot));
    }
}

#[test]
fn test_grid_and_destroy() {
    let mut shots = ShotMap::empty();

    assert!(grid_and_destroy(Pos::new(0, 0), &shots).0 == Pos::new(0, 0));

    shots.set(0, 0, Shot::Hit(Boat::Destroyer));

    let shot = grid_and_destroy(Pos::new(0, 0), &shots).0;
    shots.set(shot.x, shot.y, Shot::Hit(Boat::Destroyer));

    assert!(grid_and_destroy(Pos::new(0, 0), &shots).0 == Pos::new(3, 0));
}

#[test]
fn test_grid_and_destroy2() {
    let mut shots = ShotMap::empty();

    assert!(grid_and_destroy(Pos::new(0, 0), &shots).0 == Pos::new(0, 0));
    shots.set(0, 0, Shot::Miss);

    assert!(grid_and_destroy(Pos::new(0, 0), &shots).0 == Pos::new(2, 0));
    shots.set(2, 0, Shot::Miss);

    assert!(grid_and_destroy(Pos::new(0, 0), &shots).0 == Pos::new(4, 0));
}

#[test]
fn test_create_heatmap() {
    let mut shots = ShotMap::empty();

    let heatmap = create_heatmap(&shots);

    assert!(heatmap.get(0, 0) == 10);
    assert!(heatmap.get(0, 9) == 10);
    assert!(heatmap.get(9, 0) == 10);
    assert!(heatmap.get(9, 9) == 10);

    for x in 1..9 {
        for y in 0..10 {
            assert!(heatmap.get(x, y) > 10);
        }
    }

    assert!(heatmap.get(0, 1) == heatmap.get(1, 0));

    shots.set(0, 0, Shot::Miss);
    let heatmap = create_heatmap(&shots);
    assert!(heatmap.get(0, 1) == 10);

    shots.set(0, 2, Shot::Miss);
    let heatmap = create_heatmap(&shots);
    assert!(heatmap.get(0, 1) == 5);
}

#[test]
fn test_heatmap_and_destroy() {
    let mut shots = ShotMap::empty();

    let possible = [Pos::new(4, 4), Pos::new(4, 5), Pos::new(5, 4), Pos::new(5, 5)];

    assert!(possible.contains(&heatmap_and_destroy(Pos::new(0, 0), &shots)));

    shots.set(4, 4, Shot::Miss);
    assert!(heatmap_and_destroy(Pos::new(0, 0), &shots) == Pos::new(5, 5));
}
