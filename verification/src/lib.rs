//! An append-only history of values: every commit becomes the new head, and
//! earlier commits stay reachable by stepping back from it.

pub mod chain;
pub mod decimal;
pub mod node;
