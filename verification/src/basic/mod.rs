//! The plain router: routes lead to service names, answered with fixed status lines.
pub mod parser;
pub mod router;
