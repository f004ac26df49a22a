pub mod classify;
pub mod compare;
pub mod content;
pub mod order;
pub mod path;
pub mod reconcile;
pub mod totals;
pub mod walk;
