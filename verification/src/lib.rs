//! The logic of a small web search engine: crawling state and rate limits,
//! reading pages (title, meta tags, main text, links, language), sitemaps,
//! scraping statistics, query lemmatization and the integer parts of the
//! ranking scores. Network, database and file access are left to the
//! program around the library.
pub mod cli;
pub mod config;
pub mod crawler;
pub mod engine;
pub mod html;
pub mod lemmatization;
pub mod models;
pub mod parser;
pub mod records;
pub mod scoring;
pub mod stats;
pub mod strmap;
pub mod text;
pub mod ui;
pub mod urls;
pub mod utils;
