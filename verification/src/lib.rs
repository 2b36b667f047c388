//! A multi-stage service pipeline for a simulated coffee shop.
//!
//! Customers place orders, an intake stage decomposes each order into
//! individual items, a pool of workers processes items, and a completion
//! router delivers each finished item back to the customer that ordered it.
//! The library holds the routing and bookkeeping core as plain data and
//! verified transition functions; thread and channel plumbing lives outside.

pub mod catalog;
pub mod customer;
pub mod intake;
pub mod order;
pub mod router;
pub mod system;
pub mod worker;
pub mod tally;

pub use catalog::Catalog;
pub use catalog::Category;
pub use catalog::MenuEntry;
pub use customer::CustomerAgent;
pub use customer::Phase;
pub use order::Item;
pub use order::ItemState;
pub use order::Order;
pub use router::DeliveryQueue;
pub use router::RouteError;
pub use router::Router;
pub use system::System;
pub use worker::Latency;
