//! A star catalogue held in exact decimal arithmetic: loading from delimited
//! text or from a binary snapshot, distance-bounded queries in ascending
//! order of distance, and the colour of a star from its B-V colour index.

pub mod codec;
pub mod color;
pub mod decimal;
pub mod error;
pub mod loader;
pub mod query;
pub mod session;
pub mod sim_data;
pub mod text;

pub use sim_data::Star;
