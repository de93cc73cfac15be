pub mod commands;
pub mod generator;
pub mod git;
pub mod store;
