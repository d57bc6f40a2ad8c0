//! Verified core of a small collection of market-data tools: text helpers,
//! bump arenas, a stock watch list, quote parsing, commodity price scraping,
//! trend classification and price storage planning.

pub mod align;
pub mod arena;
pub mod collect;
pub mod fixed_arena;
pub mod geometry;
pub mod grep;
pub mod guess;
pub mod number;
pub mod quotes;
pub mod report;
pub mod schedule;
pub mod scrapers;
pub mod store;
pub mod text;
pub mod trend;
pub mod watchlist;
