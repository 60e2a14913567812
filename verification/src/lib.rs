//! Reads a wiki of categories and pages: crawls the tree of categories, reads devil fruits,
//! pirate crews and ships off their pages, and merges what many tasks bring into sorted
//! lists of records. The pages are parsed by the `scraper` crate and searched by the `regex`
//! crate; what the library makes of them is verified.

pub mod category;
pub mod crawl_laws;
pub mod df;
pub mod dom;
pub mod fetcher;
pub mod order;
pub mod output_writer;
pub mod pattern;
pub mod pipeline;
pub mod pirates;
pub mod rerun_laws;
pub mod ships;
pub mod text;
pub mod types;
pub mod utils;
