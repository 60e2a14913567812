pub mod models;
pub mod parser;
pub mod scraper;
pub mod types;
