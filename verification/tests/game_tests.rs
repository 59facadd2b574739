use battleship_bot::{Battleship, Boat, Player, PlaceStrategy, Recording, Shot, ShootStrategy, ShotMap};

fn hits_on(board: &ShotMap) -> usize {
    let mut hits = 0;
    for x in 0..10 {
        for y in 0..10 {
            if matches!(board.get(x, y), Some(Shot::Hit(_))) {
                hits += 1;
            }
        }
    }
    hits
}

#[test]
fn test_battleship() {
    const NUM_GAMES: usize = 1_000;

    let mut game = Battleship::new(
        PlaceStrategy::Random,
        PlaceStrategy::Random,
        ShootStrategy::Random,
        ShootStrategy::Random,
    );

    let (p1_wins, p2_wins) = game.play_games(NUM_GAMES);
    assert!(p1_wins > p2_wins);

    let mut game = Battleship::new(
        PlaceStrategy::Sides,
        PlaceStrategy::Sides,
        ShootStrategy::Random,
        ShootStrategy::HeatmapAndDestroy,
    );

    let (p1_wins, p2_wins) = game.play_games(NUM_GAMES);
    assert!(p2_wins > p1_wins);

    let mut game = Battleship::new(
        PlaceStrategy::Spread,
        PlaceStrategy::Spread,
        ShootStrategy::GridAndDestroy,
        ShootStrategy::HeatmapAndDestroy,
    );

    let (p1_wins, p2_wins) = game.play_games(NUM_GAMES);
    assert!(p2_wins > p1_wins);
}

#[test]
fn test_play_games_total() {
    let mut game = Battleship::new(
        PlaceStrategy::Cluster,
        PlaceStrategy::Random,
        ShootStrategy::RandomAndDestroy,
        ShootStrategy::RandomAndRandomDestroy,
    );

    let (p1_wins, p2_wins) = game.play_games(25);
    assert_eq!(p1_wins + p2_wins, 25);
}

#[test]
fn test_recording_round_trip() {
    let mut game = Battleship::new(
        PlaceStrategy::Random,
        PlaceStrategy::Random,
        ShootStrategy::RandomAndDestroy,
        ShootStrategy::GridAndDestroy,
    );

    for _ in 0..5 {
        let recording: Recording = game.play_and_record_game();

        let (winner_snaps, loser_snaps) = match recording.winner {
            Player::P1 => (&recording.player1_shots, &recording.player2_shots),
            Player::P2 => (&recording.player2_shots, &recording.player1_shots),
        };

        let last = winner_snaps.last().expect("winner took no turn");
        assert_eq!(hits_on(last), 17);

        let loser_last = loser_snaps.last().expect("loser took no turn");
        assert!(hits_on(loser_last) < 17);
    }
}

#[test]
fn test_no_draw() {
    let mut game = Battleship::new(
        PlaceStrategy::Spread,
        PlaceStrategy::Cluster,
        ShootStrategy::HeatmapAndDestroy,
        ShootStrategy::RandomAndDestroy,
    );

    for _ in 0..5 {
        let recording = game.play_and_record_game();

        let p1_last = recording.player1_shots.last().expect("player 1 took no turn");
        let p2_last = recording.player2_shots.last().expect("player 2 took no turn");

        assert!(!(hits_on(p1_last) == 17 && hits_on(p2_last) == 17));
    }
}

#[test]
fn test_recording_boats_valid() {
    let mut game = Battleship::new(
        PlaceStrategy::Sides,
        PlaceStrategy::Spread,
        ShootStrategy::Random,
        ShootStrategy::RandomAndDestroy,
    );

    let recording = game.play_and_record_game();

    for boats in [&recording.player1_boats, &recording.player2_boats] {
        let mut counts = [0usize; 5];
        for x in 0..10 {
            for y in 0..10 {
                match boats.get(x, y) {
                    Boat::Destroyer => counts[0] += 1,
                    Boat::Submarine => counts[1] += 1,
                    Boat::Cruiser => counts[2] += 1,
                    Boat::Battleship => counts[3] += 1,
                    Boat::Carrier => counts[4] += 1,
                    Boat::Empty => (),
                }
            }
        }
        assert_eq!(counts, [2, 3, 3, 4, 5]);
    }
}

fn shots_fired(board: &ShotMap) -> usize {
    let mut fired = 0;
    for x in 0..10 {
        for y in 0..10 {
            if board.get(x, y).is_some() {
                fired += 1;
            }
        }
    }
    fired
}

fn grows_by_exactly_one(before: &ShotMap, after: &ShotMap) -> bool {
    let mut new_cells = 0;
    for x in 0..10 {
        for y in 0..10 {
            match (before.get(x, y), after.get(x, y)) {
                (None, Some(_)) => new_cells += 1,
                (a, b) => {
                    if a != b {
                        return false;
                    }
                }
            }
        }
    }
    new_cells == 1
}

#[test]
fn test_recording_snapshot_structure() {
    let mut game = Battleship::new(
        PlaceStrategy::Random,
        PlaceStrategy::Sides,
        ShootStrategy::GridAndDestroy,
        ShootStrategy::RandomAndRandomDestroy,
    );

    let recording = game.play_and_record_game();

    // Player 1 moves first: one extra turn exactly when it won.
    let p1_extra = if recording.winner == Player::P1 { 1 } else { 0 };
    assert_eq!(
        recording.player1_shots.len(),
        recording.player2_shots.len() + p1_extra
    );

    for snaps in [&recording.player1_shots, &recording.player2_shots] {
        for (k, snap) in snaps.iter().enumerate() {
            assert_eq!(shots_fired(snap), k + 1);
        }
        for pair in snaps.windows(2) {
            assert!(grows_by_exactly_one(&pair[0], &pair[1]));
        }
    }
}

#[test]
fn test_player_opponent() {
    assert_eq!(Player::P1.opponent(), Player::P2);
    assert_eq!(Player::P2.opponent(), Player::P1);
}
