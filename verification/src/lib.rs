//! Keeps a small user-curated shortlist of workspace panes valid while the
//! live workspace mutates, and restores the shortlist across a host session
//! restart from durable (tab name, pane title) bookmarks.

pub mod codec;
pub mod focus;
pub mod matcher;
pub mod model;
pub mod order;
pub mod persistence;
pub mod reconcile;
pub mod state;

pub use model::Pane;
pub use persistence::{Persistence, PersistenceError};
