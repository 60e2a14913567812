pub mod models;
pub mod scraper;
