//! The records of an auction-house snapshot.

pub mod auctions;
