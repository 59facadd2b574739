//! Automated Battleship: verified boards, targeting strategies and game engine.
//!
//! Two bot players fight on fixed 10x10 grids. Each player owns a board of
//! boat placements and a board recording the outcome of every shot it has
//! fired. Targeting is split into a destroy mode, which finishes off a boat
//! that has been hit but not sunk, and several first-contact search
//! strategies (uniform random, grid scan, placement heatmap). A game engine
//! alternates turns until one player has hit every boat cell of the opponent.

mod board;
mod boat;
mod destroy;
mod game;
mod heatmap;
pub mod place;
pub mod shoot;
mod utils;
mod pos;
mod rng;
mod shot;

pub use crate::boat::{length, Boat};
pub use crate::board::{BoatMap, ShotMap};
pub use crate::destroy::{destroy, random_destroy, valid_shot_any};
pub use crate::game::{Battleship, Player, Recording};
pub use crate::heatmap::{create_heatmap, heatmap_find, Heatmap};
pub use crate::place::{cluster, overlaps, place_boat, sides, spread, valid_boat_pos, PlaceStrategy};
pub use crate::shoot::{
    grid_and_destroy, heatmap_and_destroy, random_and_destroy, random_and_random_destroy,
    random_find, valid_shot, ShootStrategy,
};
pub use crate::utils::get_hits;
pub use crate::pos::Pos;
pub use crate::shot::Shot;
