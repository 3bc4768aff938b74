//! The driver of a connector for Databricks SQL warehouses.

pub mod config;
pub mod driver;
pub mod execution;
pub mod http;
pub mod jdbc;
pub mod json;
pub mod metadata;
pub mod ordered;
pub mod queries;
pub mod rows;
pub mod secrets;
pub mod settings;
pub mod statement;
pub mod text;
pub mod url;
