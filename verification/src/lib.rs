//! Scrapdog: turning a ScrapBook X RDF index into a tree of nodes that a
//! database can hold, with the parsing and remapping logic verified.
pub mod model;
pub mod paths;
pub mod text;
pub mod parser;
pub mod types;
pub mod storage;
