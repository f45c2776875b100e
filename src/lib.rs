pub mod date;
pub mod error;
pub mod filter;
pub mod game;
pub mod members;
pub mod ranking;
pub mod record;
pub mod stats;
pub mod views;

pub use error::PmError;
