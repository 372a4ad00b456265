//! Collection, parsing and exposition logic of a Linux netlink metrics exporter.
pub mod wire;
pub mod text;
pub mod order;
pub mod labels;
pub mod metric;
pub mod model;
pub mod collectors;
pub mod error;
pub mod tally;
pub mod dump;
pub mod address;
pub mod registry;
pub mod config;
pub mod scrape;
pub mod http;
pub mod procfs;
pub mod probes;
