//! The module-based server: routes lead to services, services run modules, and
//! status codes come from a table.
pub mod parser;
pub mod router;
pub mod server;
