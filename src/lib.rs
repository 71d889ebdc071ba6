//! Japanese Mahjong hand evaluation: shanten numbers, effective tiles and
//! scoring, with the contracts of each calculation proved.
//!
//! - `types`: tile kinds, tiles, melds and hands, and counting tiles by kind.
//! - `notation`: reading and writing tiles as text.
//! - `shanten`: distance from a winning hand, and the tiles that reduce it.
//! - `yaku`: winning patterns read from the whole tile multiset, and dora.
//! - `division`: splitting a hand into a head and melds, and the best split.
//! - `score`: han, fu and points of a win under a rule configuration.
pub mod types;
pub mod notation;
pub mod shanten;
pub mod score;
pub mod yaku;
pub mod division;
