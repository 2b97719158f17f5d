pub mod db;
pub mod error;
pub mod laws;
pub mod model;
pub mod options;
pub mod stats;
