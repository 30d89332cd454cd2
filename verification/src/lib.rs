pub mod actor;
pub mod batch;
pub mod state;
pub mod stats;
