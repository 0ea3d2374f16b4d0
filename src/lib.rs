pub mod generator;
pub mod matcher;
pub mod text;
pub mod search;
pub mod utils;
