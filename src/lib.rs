//! The query dispatch engine of a quick-search launcher: a registry of named
//! search backends, the selection of the backends a query goes to, a result
//! inbox that only accepts output of the current dispatch generation, and the
//! decision logic of the bundled backends.
pub mod engine;
pub mod mock;
mod order;
pub mod query;
pub mod wikipedia;

pub use engine::{Delivery, Dispatch, EngineView, QueryEngine, QueryEngineBuilder, INBOX_CAPACITY};
pub use mock::TestSearch;
pub use query::{Query, QueryEngineError, ResultView, SearchResult};
pub use wikipedia::{FetchAttempts, FetchEvent, FetchStep, PageRecord, WikipediaSearch};
