pub mod dec;
pub mod laws;
pub mod market;
pub mod order;
pub mod portfolio;
pub mod replay;
pub mod simulation;
pub mod state;
pub mod strategy;
pub mod ticker;
pub mod utils;
