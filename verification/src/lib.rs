pub mod datetime;
pub mod feed;
pub mod models;
pub mod store;
pub mod types;
