//! Lazy merge joins over sequences whose keys come in strictly ascending order.

pub mod join;
pub mod key;
pub mod laws;
pub mod lemmas;
pub mod model;
pub mod ordered;
pub mod source;
