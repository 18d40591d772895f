pub mod address;
pub mod amount;
pub mod block;
pub mod blockchain;
pub mod cache;
pub mod cli;
pub mod constant;
pub mod pipeline;
pub mod recorder;
pub mod score;
pub mod score_db;
