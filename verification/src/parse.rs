//! Turning a snapshot into item levels and price summaries.

pub mod groups;
pub mod item_level;
pub mod resolver;
pub mod summary;

pub use item_level::ItemLevelCurve;
pub use item_level::ItemLevelCurvePoints;
pub use summary::AuctionsSummary;
pub use summary::ItemSummary;
