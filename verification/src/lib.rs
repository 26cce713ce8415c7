//! An in-memory store of resting limit orders, indexed by price level.
//!
//! The crate keeps, for each market, the two sides of a book as ordered maps
//! from price to price level, a reverse index from order id to the level
//! that holds the order, and a sequence counter. It stores and aggregates;
//! it never matches bids against asks.
//!
//! Prices are whole ticks and sizes whole lots, both `u64`. Aggregates are
//! exact integer sums held in `u128`, which no number of `u64` sizes under
//! distinct `u64` ids can overflow.
//!
//! Every mutator takes `&mut self`: one exclusivity scope spans a whole
//! mutation, so a reader never observes a half-applied command.
//!
//! The contracts are stated over a mathematical model of a book, a finite
//! map from order id to resting order (`model`), and the laws that hold of
//! runs of commands are proved over that model (`runs`). What is believed
//! of `dashmap` rather than proved is gathered in `dash`.

pub mod book;
pub mod dash;
pub mod engine;
pub mod keys;
pub mod level;
pub mod model;
pub mod order;
pub mod runs;
pub mod sizes;
pub mod snapshot;

pub use book::Orderbook;
pub use engine::{BookHandle, EngineError, OrderAction, OrderbookEngine, ValidationError};
pub use level::PriceLevel;
pub use model::{Applied, BookError, BookState, Command, RestingOrder};
pub use order::Order;
pub use snapshot::{Level, OrderbookSnapshot};
