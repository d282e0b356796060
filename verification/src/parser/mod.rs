//! Parsing of a ScrapBook X `scrapbook.rdf` index.
pub mod error;
pub mod regex_utils;
pub mod resource;
pub mod xml;
pub mod description;
pub mod graph;
pub mod time;
