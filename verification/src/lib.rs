pub mod cli;
pub mod error;
pub mod models;
pub mod parser;
pub mod report;
pub mod stats;
pub mod tally;
pub mod text;
