//! Price statistics for the auction house of an online game: the market price of each item, of
//! each level of each item, and of each pet species, from one snapshot of the auctions listed.
//!
//! * [`auctions`] holds the records of a snapshot.
//! * [`stats`] estimates prices: the market price, which is the mean of the cheapest prices, and
//!   the normalized market price, which besides leaves out prices that jump and prices far from
//!   the mean, over a list of prices and over a series of `(price, quantity)` pairs.
//! * [`parse`] resolves the level of an item from its bonuses and the level curves, and
//!   summarizes a snapshot.
//! * [`wow::data_tables`] builds the lookups of the game's reference tables from their rows.
//!
//! Every number is a whole number, and every result is exact. A percentile is given in hundredths
//! of a percent, a coordinate of a level curve in thousandths of a level, a mean that is asked
//! for as such as the fraction of a sum and a count, and a standard deviation as the variance
//! whose square root it is.

pub mod battlenet;
pub mod parse;
pub mod utils;
pub mod wow;

pub use battlenet::auctions;
pub use utils::stats;
