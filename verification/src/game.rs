//! The game engine: alternating turns, win detection, whole games and
//! recordings.
//!
//! A player wins as soon as its shot board records one hit for each of the
//! fleet's 17 boat cells. Because turns alternate strictly and the engine
//! stops at the first winning check, no game ends with both players at 17.

use vstd::prelude::*;

use crate::board::{
    consistent, consistent_cell, count_hits, count_hits_up_to, count_shots, count_boat,
    count_boat_up_to, grows_by_one_shot, hit_one, is_legal, lemma_count_hits_update,
    lemma_count_shots_bound, lemma_count_shots_update, lemma_counts_empty, lemma_hits_le_shots,
    lemma_hits_bounded, lemma_no_winner_has_legal, shot_one, valid_boats, BoatMap, ShotMap,
};
use crate::boat::{fleet, fleet_boat, fleet_cells, spec_length, Boat};
use crate::place::{place_fleet, well_placed, PlaceStrategy};
use crate::pos::{cell_index, pos_on_board, Pos, NUM_CELLS};
use crate::shoot::{shoot_with, ShootStrategy};
use crate::shot::Shot;

verus! {

/// One of the two players.
#[derive(Clone, Copy, Debug, PartialEq, Eq, Structural)]
pub enum Player {
    P1,
    P2,
}

/// The other player.
pub open spec fn spec_opponent(p: Player) -> Player {
    match p {
        Player::P1 => Player::P2,
        Player::P2 => Player::P1,
    }
}

impl Player {
    /// The other player.
    pub fn opponent(&self) -> (r: Self)
        ensures
            r == spec_opponent(*self),
    {
        match self {
            Player::P1 => Self::P2,
            Player::P2 => Self::P1,
        }
    }
}

/// What one finished game left behind: both fleets, each player's shot board
/// after every one of its turns, and the winner.
pub struct Recording {
    /// The boats for player 1.
    pub player1_boats: BoatMap,
    /// The boats for player 2.
    pub player2_boats: BoatMap,
    /// Player 1's shot board after each of its turns, in order.
    pub player1_shots: Vec<ShotMap>,
    /// Player 2's shot board after each of its turns, in order.
    pub player2_shots: Vec<ShotMap>,
    /// The winner of the recorded game.
    pub winner: Player,
}

impl Recording {
    /// Bundles the parts of a finished game.
    pub fn new(
        player1_boats: BoatMap,
        player2_boats: BoatMap,
        player1_shots: Vec<ShotMap>,
        player2_shots: Vec<ShotMap>,
        winner: Player,
    ) -> (r: Self)
        ensures
            r.player1_boats == player1_boats,
            r.player2_boats == player2_boats,
            r.player1_shots == player1_shots,
            r.player2_shots == player2_shots,
            r.winner == winner,
    {
        Self { player1_boats, player2_boats, player1_shots, player2_shots, winner }
    }
}

/// No state the engine reaches satisfies the win condition for both players
/// at once: turns alternate strictly and the engine stops at the first
/// winning check, so at most one shot board can record all 17 boat cells.
pub proof fn lemma_no_draw(game: &Battleship)
    requires
        game.inv(),
    ensures
        !(game.hits_of(Player::P1) == fleet_cells() && game.hits_of(Player::P2) == fleet_cells()),
{
}

/// Runs games between two configured players.
pub struct Battleship {
    current_player: Player,
    min_shots: usize,
    player1_boats: BoatMap,
    player2_boats: BoatMap,
    player1_shots: ShotMap,
    player2_shots: ShotMap,
    player1_shoot: ShootStrategy,
    player2_shoot: ShootStrategy,
    player1_place: PlaceStrategy,
    player2_place: PlaceStrategy,
    player1_last_shot: Pos,
    player2_last_shot: Pos,
}

impl Battleship {
    /// The boat board a player fires at: the opponent's.
    pub closed spec fn boats_of(&self, p: Player) -> Seq<Boat> {
        match p {
            Player::P1 => self.player1_boats@,
            Player::P2 => self.player2_boats@,
        }
    }

    /// A player's own shot board.
    pub closed spec fn shots_of(&self, p: Player) -> Seq<Option<Shot>> {
        match p {
            Player::P1 => self.player1_shots@,
            Player::P2 => self.player2_shots@,
        }
    }

    /// The number of hits a player has scored.
    pub open spec fn hits_of(&self, p: Player) -> nat {
        count_hits(self.shots_of(p))
    }

    /// The number of shots a player has fired.
    pub open spec fn fired_of(&self, p: Player) -> nat {
        count_shots(self.shots_of(p))
    }

    /// The player to move.
    pub closed spec fn turn(&self) -> Player {
        self.current_player
    }

    /// The placement strategy a player was configured with.
    pub closed spec fn place_strategy_of(&self, p: Player) -> PlaceStrategy {
        match p {
            Player::P1 => self.player1_place,
            Player::P2 => self.player2_place,
        }
    }

    /// The targeting strategy a player was configured with.
    pub closed spec fn shoot_strategy_of(&self, p: Player) -> ShootStrategy {
        match p {
            Player::P1 => self.player1_shoot,
            Player::P2 => self.player2_shoot,
        }
    }

    /// Both games carry the same configuration: play never changes the
    /// strategies the engine was created with.
    pub open spec fn same_setup(&self, other: &Battleship) -> bool {
        forall|p: Player|
            #[trigger] self.place_strategy_of(p) == other.place_strategy_of(p)
                && self.shoot_strategy_of(p) == other.shoot_strategy_of(p)
    }

    /// The engine's state invariant: well-formed boards, every recorded shot
    /// consistent with the opponent's fleet, and never two winners.
    pub closed spec fn inv(&self) -> bool {
        &&& self.player1_boats.wf()
        &&& self.player2_boats.wf()
        &&& self.player1_shots.wf()
        &&& self.player2_shots.wf()
        &&& consistent(self.player2_boats@, self.player1_shots@)
        &&& consistent(self.player1_boats@, self.player2_shots@)
        &&& pos_on_board(self.player1_last_shot)
        &&& pos_on_board(self.player2_last_shot)
        &&& self.min_shots == fleet_cells()
        &&& (self.hits_of(Player::P1) < fleet_cells() || self.hits_of(Player::P2) < fleet_cells())
    }

    /// Both fleets are fully and validly placed: each boat covers exactly as
    /// many cells as its length, as one straight contiguous run.
    pub closed spec fn placed(&self) -> bool {
        &&& valid_boats(self.player1_boats@)
        &&& valid_boats(self.player2_boats@)
        &&& well_placed(self.player1_boats@)
        &&& well_placed(self.player2_boats@)
    }

    /// Who has won: the first player whose hits cover the whole fleet.
    pub open spec fn spec_winner(&self) -> Option<Player> {
        if self.hits_of(Player::P1) == fleet_cells() {
            Some(Player::P1)
        } else if self.hits_of(Player::P2) == fleet_cells() {
            Some(Player::P2)
        } else {
            None
        }
    }

    /// The number of cells the placed fleet covers.
    fn fleet_total_cells() -> (r: usize)
        ensures
            r == fleet_cells(),
    {
        let a = fleet_boat(0).length();
        let b = fleet_boat(1).length();
        let c = fleet_boat(2).length();
        let d = fleet_boat(3).length();
        let e = fleet_boat(4).length();
        a + b + c + d + e
    }

    /// The number of cells of `boats` that hold the given boat.
    fn count_boat_cells(boats: &BoatMap, boat: Boat) -> (c: usize)
        requires
            boats.wf(),
        ensures
            c == count_boat(boats@, boat),
    {
        let mut c: usize = 0;
        for n in 0..NUM_CELLS
            invariant
                boats.wf(),
                c == count_boat_up_to(boats@, boat, n as int),
                c <= n,
        {
            let x = n / 10;
            let y = n % 10;
            proof {
                assert(cell_index(x as int, y as int) == n);
            }
            if boats.get(x, y) == boat {
                c = c + 1;
            }
        }
        c
    }

    /// True iff every boat of the fleet covers exactly as many cells as its
    /// length: the check a placement strategy's output must pass.
    fn boats_valid(boats: &BoatMap) -> (r: bool)
        requires
            boats.wf(),
        ensures
            r == valid_boats(boats@),
    {
        let mut rank: usize = 0;
        while rank < 5
            invariant
                boats.wf(),
                rank <= 5,
                forall|k: int|
                    0 <= k < rank ==> count_boat(boats@, #[trigger] fleet()[k]) == spec_length(
                        fleet()[k],
                    ),
            decreases 5 - rank,
        {
            let boat = fleet_boat(rank);
            let c = Self::count_boat_cells(boats, boat);
            if c != boat.length() {
                proof {
                    assert(count_boat(boats@, fleet()[rank as int]) != spec_length(
                        fleet()[rank as int],
                    ));
                }
                return false;
            }
            rank = rank + 1;
        }
        true
    }

    /// Sets up a game between the four given strategies. The placement
    /// strategies are run once to check that they produce valid fleets; the
    /// boards themselves are laid out afresh at the start of every game.
    pub fn new(
        player1_place: PlaceStrategy,
        player2_place: PlaceStrategy,
        player1_shoot: ShootStrategy,
        player2_shoot: ShootStrategy,
    ) -> (r: Self)
        ensures
            r.inv(),
            r.turn() == Player::P1,
            forall|p: Player| #[trigger] r.hits_of(p) == 0 && r.fired_of(p) == 0,
            r.place_strategy_of(Player::P1) == player1_place,
            r.place_strategy_of(Player::P2) == player2_place,
            r.shoot_strategy_of(Player::P1) == player1_shoot,
            r.shoot_strategy_of(Player::P2) == player2_shoot,
    {
        let b1 = place_fleet(player1_place);
        let ok1 = Self::boats_valid(&b1);
        assert(ok1);
        let b2 = place_fleet(player2_place);
        let ok2 = Self::boats_valid(&b2);
        assert(ok2);

        let r = Self {
            current_player: Player::P1,
            min_shots: Self::fleet_total_cells(),
            player1_boats: BoatMap::empty(),
            player2_boats: BoatMap::empty(),
            player1_shots: ShotMap::empty(),
            player2_shots: ShotMap::empty(),
            player1_shoot,
            player2_shoot,
            player1_place,
            player2_place,
            player1_last_shot: Pos::new(0, 0),
            player2_last_shot: Pos::new(0, 0),
        };
        proof {
            lemma_counts_empty(r.player1_shots@, 100);
            lemma_counts_empty(r.player2_shots@, 100);
        }
        r
    }

    /// A copy of a player's boat board.
    fn get_boats(&self, player: Player) -> (r: BoatMap)
        requires
            self.inv(),
        ensures
            r@ == self.boats_of(player),
            r.wf(),
    {
        match player {
            Player::P1 => self.player1_boats.duplicate(),
            Player::P2 => self.player2_boats.duplicate(),
        }
    }

    /// A copy of a player's shot board; with `None`, the current player's.
    fn get_shots(&self, player: Option<Player>) -> (r: ShotMap)
        requires
            self.inv(),
        ensures
            r@ == self.shots_of(
                match player {
                    Some(p) => p,
                    None => self.turn(),
                },
            ),
            r.wf(),
    {
        match player {
            Some(Player::P1) => self.player1_shots.duplicate(),
            Some(Player::P2) => self.player2_shots.duplicate(),
            None => match self.current_player {
                Player::P1 => self.player1_shots.duplicate(),
                Player::P2 => self.player2_shots.duplicate(),
            },
        }
    }

    /// The current player's targeting strategy.
    fn get_shoot_fn(&self) -> ShootStrategy {
        match self.current_player {
            Player::P1 => self.player1_shoot,
            Player::P2 => self.player2_shoot,
        }
    }

    /// The current player's persisted grid-scan coordinate.
    fn get_last_shot(&self) -> (r: Pos)
        requires
            self.inv(),
        ensures
            pos_on_board(r),
    {
        match self.current_player {
            Player::P1 => self.player1_last_shot,
            Player::P2 => self.player2_last_shot,
        }
    }

    /// Replaces the current player's persisted grid-scan coordinate.
    fn set_last_shot(&mut self, pos: Pos)
        requires
            old(self).inv(),
            pos_on_board(pos),
        ensures
            final(self).inv(),
            final(self).placed() == old(self).placed(),
            *final(self) == (Battleship {
                player1_last_shot: final(self).player1_last_shot,
                player2_last_shot: final(self).player2_last_shot,
                ..*old(self)
            }),
    {
        match self.current_player {
            Player::P1 => self.player1_last_shot = pos,
            Player::P2 => self.player2_last_shot = pos,
        }
    }

    /// Records `value` on the current player's shot board at `pos`.
    fn set_shot(&mut self, pos: Pos, value: Shot)
        requires
            old(self).inv(),
            pos_on_board(pos),
        ensures
            final(self).shots_of(old(self).turn()) == old(self).shots_of(old(self).turn()).update(
                cell_index(pos.x as int, pos.y as int),
                Some(value),
            ),
            final(self).shots_of(spec_opponent(old(self).turn())) == old(self).shots_of(
                spec_opponent(old(self).turn()),
            ),
            *final(self) == (Battleship {
                player1_shots: final(self).player1_shots,
                player2_shots: final(self).player2_shots,
                ..*old(self)
            }),
            final(self).player1_shots.wf(),
            final(self).player2_shots.wf(),
    {
        match self.current_player {
            Player::P1 => self.player1_shots.set(pos.x, pos.y, value),
            Player::P2 => self.player2_shots.set(pos.x, pos.y, value),
        }
    }

    /// Fires the current player's shot at `pos`: a cell of the opponent's
    /// fleet records a hit naming its boat, an empty cell records a miss.
    fn shoot(&mut self, pos: Pos)
        requires
            old(self).inv(),
            pos_on_board(pos),
            is_legal(old(self).shots_of(old(self).turn()), pos.x as int, pos.y as int),
            old(self).hits_of(Player::P1) < fleet_cells(),
            old(self).hits_of(Player::P2) < fleet_cells(),
        ensures
            final(self).inv(),
            final(self).placed() == old(self).placed(),
            final(self).turn() == old(self).turn(),
            forall|p: Player| #[trigger] final(self).boats_of(p) == old(self).boats_of(p),
            final(self).shots_of(spec_opponent(old(self).turn())) == old(self).shots_of(
                spec_opponent(old(self).turn()),
            ),
            final(self).fired_of(old(self).turn()) == old(self).fired_of(old(self).turn()) + 1,
            final(self).fired_of(spec_opponent(old(self).turn())) == old(self).fired_of(
                spec_opponent(old(self).turn()),
            ),
            old(self).hits_of(old(self).turn()) <= final(self).hits_of(old(self).turn()) <= old(
                self,
            ).hits_of(old(self).turn()) + 1,
            final(self).hits_of(spec_opponent(old(self).turn())) == old(self).hits_of(
                spec_opponent(old(self).turn()),
            ),
            *final(self) == (Battleship {
                player1_shots: final(self).player1_shots,
                player2_shots: final(self).player2_shots,
                ..*old(self)
            }),
            grows_by_one_shot(
                old(self).shots_of(old(self).turn()),
                final(self).shots_of(old(self).turn()),
            ),
    {
        let (x, y) = (pos.x, pos.y);
        let boat = match self.current_player.opponent() {
            Player::P1 => self.player1_boats.get(x, y),
            Player::P2 => self.player2_boats.get(x, y),
        };

        let value = if boat.has_some() {
            Shot::Hit(boat)
        } else {
            Shot::Miss
        };

        let ghost shooter = self.current_player;
        let ghost pre = self.shots_of(shooter);
        let ghost opp_boats = self.boats_of(spec_opponent(shooter));

        self.set_shot(Pos::new(x, y), value);

        proof {
            let ci = cell_index(pos.x as int, pos.y as int);
            assert(consistent_cell(opp_boats[ci], Some(value)));
            assert forall|i: int| 0 <= i < 100 implies consistent_cell(
                opp_boats[i],
                #[trigger] self.shots_of(shooter)[i],
            ) by {
                if i != ci {
                    assert(self.shots_of(shooter)[i] == pre[i]);
                }
            }
            lemma_count_hits_update(pre, ci, Some(value), 100);
            lemma_count_shots_update(pre, ci, Some(value), 100);
            assert(hit_one(pre[ci]) == 0);
            assert(shot_one(pre[ci]) == 0);
            assert(grows_by_one_shot(pre, self.shots_of(shooter))) by {
                assert(0 <= ci < 100 && pre[ci] is None && self.shots_of(shooter)[ci] is Some && (
                forall|j: int| 0 <= j < 100 && j != ci ==> pre[j] == #[trigger] self.shots_of(
                    shooter,
                )[j]));
            }
        }
    }

    /// One turn: asks the current player's strategy for a cell (destroy mode
    /// first, search otherwise), fires at it, and hands the turn over. One
    /// new shot appears on the mover's board; nothing else changes.
    fn step(&mut self)
        requires
            old(self).inv(),
            old(self).placed(),
            old(self).spec_winner() is None,
        ensures
            final(self).inv(),
            final(self).placed(),
            final(self).turn() == spec_opponent(old(self).turn()),
            forall|p: Player| #[trigger] final(self).boats_of(p) == old(self).boats_of(p),
            final(self).shots_of(spec_opponent(old(self).turn())) == old(self).shots_of(
                spec_opponent(old(self).turn()),
            ),
            final(self).fired_of(old(self).turn()) == old(self).fired_of(old(self).turn()) + 1,
            final(self).fired_of(spec_opponent(old(self).turn())) == old(self).fired_of(
                spec_opponent(old(self).turn()),
            ),
            old(self).hits_of(old(self).turn()) <= final(self).hits_of(old(self).turn()) <= old(
                self,
            ).hits_of(old(self).turn()) + 1,
            final(self).hits_of(spec_opponent(old(self).turn())) == old(self).hits_of(
                spec_opponent(old(self).turn()),
            ),
            grows_by_one_shot(
                old(self).shots_of(old(self).turn()),
                final(self).shots_of(old(self).turn()),
            ),
            final(self).same_setup(old(self)),
    {
        proof {
            lemma_hits_bounded(self.boats_of(Player::P2), self.shots_of(Player::P1));
            lemma_hits_bounded(self.boats_of(Player::P1), self.shots_of(Player::P2));
            lemma_no_winner_has_legal(
                self.boats_of(spec_opponent(self.turn())),
                self.shots_of(self.turn()),
            );
        }

        let last = self.get_last_shot();
        let strategy = self.get_shoot_fn();
        let (pos, new_last_pos) = match self.current_player {
            Player::P1 => shoot_with(strategy, last, &self.player1_shots),
            Player::P2 => shoot_with(strategy, last, &self.player2_shots),
        };

        assert(is_legal(self.shots_of(self.turn()), pos.x as int, pos.y as int));

        if new_last_pos {
            self.set_last_shot(pos);
        }
        self.shoot(pos);

        self.current_player = self.current_player.opponent();
    }

    /// Lays out both fleets afresh, clears both shot boards and gives player
    /// 1 the move.
    fn reset(&mut self)
        requires
            old(self).inv(),
        ensures
            final(self).inv(),
            final(self).placed(),
            final(self).turn() == Player::P1,
            forall|p: Player| #[trigger] final(self).fired_of(p) == 0,
            forall|p: Player| #[trigger] final(self).hits_of(p) == 0,
            final(self).same_setup(old(self)),
    {
        self.player1_boats = place_fleet(self.player1_place);
        self.player2_boats = place_fleet(self.player2_place);

        self.player1_shots = ShotMap::empty();
        self.player2_shots = ShotMap::empty();

        self.current_player = Player::P1;

        proof {
            lemma_counts_empty(self.player1_shots@, 100);
            lemma_counts_empty(self.player2_shots@, 100);
        }
    }

    /// The winner, if there is one: the player whose shot board records a
    /// hit for every one of the fleet's 17 cells. Player 1 is checked first.
    fn winner(&self) -> (r: Option<Player>)
        requires
            self.inv(),
        ensures
            r == self.spec_winner(),
            r matches Some(p) ==> self.hits_of(spec_opponent(p)) < fleet_cells(),
    {
        let mut player1_hits: usize = 0;
        let mut player2_hits: usize = 0;

        for n in 0..NUM_CELLS
            invariant
                self.inv(),
                player1_hits == count_hits_up_to(self.shots_of(Player::P1), n as int),
                player2_hits == count_hits_up_to(self.shots_of(Player::P2), n as int),
                player1_hits <= n,
                player2_hits <= n,
        {
            let x = n / 10;
            let y = n % 10;
            proof {
                assert(cell_index(x as int, y as int) == n);
            }
            if matches!(self.player1_shots.get(x, y), Some(Shot::Hit(_))) {
                player1_hits = player1_hits + 1;
            }
            if matches!(self.player2_shots.get(x, y), Some(Shot::Hit(_))) {
                player2_hits = player2_hits + 1;
            }
        }

        if player1_hits == self.min_shots {
            Some(Player::P1)
        } else if player2_hits == self.min_shots {
            Some(Player::P2)
        } else {
            None
        }
    }

    /// Plays one game to its end and says who won. The winner's shot board
    /// records all 17 boat cells; the loser's records fewer.
    fn play_game(&mut self) -> (r: Player)
        requires
            old(self).inv(),
        ensures
            final(self).inv(),
            final(self).placed(),
            final(self).spec_winner() == Some(r),
            final(self).hits_of(r) == fleet_cells(),
            final(self).hits_of(spec_opponent(r)) < fleet_cells(),
            final(self).same_setup(old(self)),
    {
        self.reset();

        let mut winner = self.winner();

        while winner.is_none()
            invariant
                self.inv(),
                self.placed(),
                self.same_setup(old(self)),
                winner == self.spec_winner(),
                self.fired_of(Player::P1) <= 100,
                self.fired_of(Player::P2) <= 100,
            decreases 200 - self.fired_of(Player::P1) - self.fired_of(Player::P2),
        {
            self.step();
            winner = self.winner();
            proof {
                lemma_count_shots_bound(self.shots_of(Player::P1), 100);
                lemma_count_shots_bound(self.shots_of(Player::P2), 100);
            }
        }

        let r = winner.unwrap();
        proof {
            if r == Player::P1 {
                assert(self.hits_of(Player::P2) < fleet_cells());
            } else {
                assert(self.hits_of(Player::P1) < fleet_cells());
            }
        }
        r
    }

    /// Plays one game and records it: the two boards it was played on, each
    /// player's shot board after every one of its turns, and the winner. The
    /// recording is pinned to that game: the boats and the last snapshots are
    /// the engine's final boards, each snapshot list is as long as the turns
    /// its player took (player 1 moved first, so its list is one longer
    /// exactly when it won), the k-th snapshot records k+1 shots and each
    /// snapshot grows the previous one by a single newly fired cell. The
    /// winner's last snapshot records exactly the fleet's 17 hits; every
    /// snapshot of the loser records fewer, so the two can never both
    /// satisfy the win condition.
    pub fn play_and_record_game(&mut self) -> (r: Recording)
        requires
            old(self).inv(),
        ensures
            final(self).inv(),
            final(self).placed(),
            final(self).same_setup(old(self)),
            final(self).spec_winner() == Some(r.winner),
            r.player1_boats@ == final(self).boats_of(Player::P1),
            r.player2_boats@ == final(self).boats_of(Player::P2),
            valid_boats(r.player1_boats@),
            valid_boats(r.player2_boats@),
            well_placed(r.player1_boats@),
            well_placed(r.player2_boats@),
            r.player1_shots@.len() == final(self).fired_of(Player::P1),
            r.player2_shots@.len() == final(self).fired_of(Player::P2),
            r.player1_shots@.len() == r.player2_shots@.len() + (if r.winner == Player::P1 {
                1int
            } else {
                0int
            }),
            r.player1_shots@.len() > 0 ==> r.player1_shots@.last()@ == final(self).shots_of(
                Player::P1,
            ),
            r.player2_shots@.len() > 0 ==> r.player2_shots@.last()@ == final(self).shots_of(
                Player::P2,
            ),
            forall|k: int|
                0 <= k < r.player1_shots@.len() ==> count_shots(#[trigger] r.player1_shots@[k]@)
                    == k + 1,
            forall|k: int|
                0 <= k < r.player2_shots@.len() ==> count_shots(#[trigger] r.player2_shots@[k]@)
                    == k + 1,
            forall|k: int|
                0 <= k < r.player1_shots@.len() - 1 ==> grows_by_one_shot(
                    #[trigger] r.player1_shots@[k]@,
                    r.player1_shots@[k + 1]@,
                ),
            forall|k: int|
                0 <= k < r.player2_shots@.len() - 1 ==> grows_by_one_shot(
                    #[trigger] r.player2_shots@[k]@,
                    r.player2_shots@[k + 1]@,
                ),
            match r.winner {
                Player::P1 => {
                    &&& r.player1_shots@.len() > 0
                    &&& count_hits(r.player1_shots@.last()@) == fleet_cells()
                    &&& forall|i: int|
                        0 <= i < r.player2_shots@.len() ==> count_hits(
                            #[trigger] r.player2_shots@[i]@,
                        ) < fleet_cells()
                },
                Player::P2 => {
                    &&& r.player2_shots@.len() > 0
                    &&& count_hits(r.player2_shots@.last()@) == fleet_cells()
                    &&& forall|i: int|
                        0 <= i < r.player1_shots@.len() ==> count_hits(
                            #[trigger] r.player1_shots@[i]@,
                        ) < fleet_cells()
                },
            },
    {
        let mut player1_shots: Vec<ShotMap> = Vec::new();
        let mut player2_shots: Vec<ShotMap> = Vec::new();

        self.reset();
        let mut winner = self.winner();

        while winner.is_none()
            invariant
                self.inv(),
                self.placed(),
                self.same_setup(old(self)),
                winner == self.spec_winner(),
                self.fired_of(Player::P1) <= 100,
                self.fired_of(Player::P2) <= 100,
                self.fired_of(Player::P1) == self.fired_of(Player::P2) + (if self.turn()
                    == Player::P2 {
                    1int
                } else {
                    0int
                }),
                winner matches Some(p) ==> self.turn() == spec_opponent(p),
                player1_shots@.len() == self.fired_of(Player::P1),
                player2_shots@.len() == self.fired_of(Player::P2),
                player1_shots@.len() > 0 ==> player1_shots@.last()@ == self.shots_of(Player::P1),
                player2_shots@.len() > 0 ==> player2_shots@.last()@ == self.shots_of(Player::P2),
                forall|k: int|
                    0 <= k < player1_shots@.len() ==> count_shots(#[trigger] player1_shots@[k]@)
                        == k + 1,
                forall|k: int|
                    0 <= k < player2_shots@.len() ==> count_shots(#[trigger] player2_shots@[k]@)
                        == k + 1,
                forall|k: int|
                    0 <= k < player1_shots@.len() - 1 ==> grows_by_one_shot(
                        #[trigger] player1_shots@[k]@,
                        player1_shots@[k + 1]@,
                    ),
                forall|k: int|
                    0 <= k < player2_shots@.len() - 1 ==> grows_by_one_shot(
                        #[trigger] player2_shots@[k]@,
                        player2_shots@[k + 1]@,
                    ),
                forall|i: int|
                    0 <= i < player1_shots@.len() ==> count_hits(#[trigger] player1_shots@[i]@)
                        <= self.hits_of(Player::P1),
                forall|i: int|
                    0 <= i < player2_shots@.len() ==> count_hits(#[trigger] player2_shots@[i]@)
                        <= self.hits_of(Player::P2),
            decreases 200 - self.fired_of(Player::P1) - self.fired_of(Player::P2),
        {
            let player = self.current_player;
            proof {
                assert(player == self.turn());
            }
            let ghost pre_shots = self.shots_of(player);
            let ghost pre_hits1 = self.hits_of(Player::P1);
            let ghost pre_hits2 = self.hits_of(Player::P2);

            self.step();

            let ghost old_snaps1 = player1_shots@;
            let ghost old_snaps2 = player2_shots@;
            match player {
                Player::P1 => player1_shots.push(self.get_shots(Some(Player::P1))),
                Player::P2 => player2_shots.push(self.get_shots(Some(Player::P2))),
            }

            winner = self.winner();
            proof {
                lemma_count_shots_bound(self.shots_of(Player::P1), 100);
                lemma_count_shots_bound(self.shots_of(Player::P2), 100);

                // The new pair of the mover's snapshot chain: its old last
                // snapshot against the board with this turn's one new shot.
                if player == Player::P1 {
                    assert(player1_shots@.last()@ == self.shots_of(Player::P1));
                    if old_snaps1.len() > 0 {
                        assert(old_snaps1.last() == player1_shots@[player1_shots@.len() - 2]);
                        assert(grows_by_one_shot(
                            player1_shots@[player1_shots@.len() - 2]@,
                            player1_shots@.last()@,
                        ));
                    }
                } else {
                    assert(player2_shots@.last()@ == self.shots_of(Player::P2));
                    if old_snaps2.len() > 0 {
                        assert(old_snaps2.last() == player2_shots@[player2_shots@.len() - 2]);
                        assert(grows_by_one_shot(
                            player2_shots@[player2_shots@.len() - 2]@,
                            player2_shots@.last()@,
                        ));
                    }
                }

                // Only the mover's hit count moved, so a new winner can only
                // be the mover, who just handed the turn over.
                if winner is Some {
                    if player == Player::P1 {
                        assert(self.hits_of(Player::P2) == pre_hits2);
                        assert(winner == Some(Player::P1));
                    } else {
                        assert(self.hits_of(Player::P1) == pre_hits1);
                        assert(winner == Some(Player::P2));
                    }
                }
            }
        }

        let w = winner.unwrap();
        proof {
            lemma_hits_le_shots(self.shots_of(Player::P1), 100);
            lemma_hits_le_shots(self.shots_of(Player::P2), 100);
        }

        Recording::new(
            self.get_boats(Player::P1),
            self.get_boats(Player::P2),
            player1_shots,
            player2_shots,
            w,
        )
    }

    /// Plays `num_games` games and tallies the wins of each player. Every
    /// game has a winner, so the two tallies sum to `num_games`.
    pub fn play_games(&mut self, num_games: usize) -> (r: (usize, usize))
        requires
            old(self).inv(),
        ensures
            final(self).inv(),
            final(self).same_setup(old(self)),
            r.0 + r.1 == num_games,
    {
        let mut p1_won: usize = 0;
        let mut p2_won: usize = 0;

        for i in 0..num_games
            invariant
                self.inv(),
                self.same_setup(old(self)),
                p1_won + p2_won == i,
                p1_won <= i,
                p2_won <= i,
        {
            let winner = self.play_game();

            if matches!(winner, Player::P1) {
                p1_won = p1_won + 1;
            } else {
                p2_won = p2_won + 1;
            }
        }

        (p1_won, p2_won)
    }
}

} // verus!
