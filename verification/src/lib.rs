pub mod db;
pub mod laws;
pub mod models;
pub mod store;
