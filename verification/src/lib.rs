pub mod models;
pub mod catalog;
pub mod correlate;
pub mod ingest;
pub mod matcher;
pub mod order;
pub mod report;
pub mod scan;
