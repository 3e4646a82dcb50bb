pub mod assoc;
pub mod pattern;
pub mod request;
pub mod routing;
pub mod route_table;
pub mod text;
pub mod basic;
pub mod modular;
pub mod web_module;
