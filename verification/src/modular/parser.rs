//! The configuration of the module-based server and its status-code table.
//!
//! Maps of the configuration files are held as entry lists in the order in
//! which they were read.
use vstd::prelude::*;
use crate::route_table::RouteShape;

verus! {

/// The whole configuration.
#[derive(Clone, Debug)]
pub struct Config {
    pub http: Http,
    /// Module names and the paths of their libraries.
    pub modules: Vec<(String, String)>,
}

/// The HTTP part of the configuration.
#[derive(Clone, Debug)]
pub struct Http {
    /// Route names and routes.
    pub routes: Vec<(String, Route)>,
    /// Service names and services.
    pub services: Vec<(String, Service)>,
    /// The most bytes a request may have.
    pub max_body_size: usize,
}

/// A parameter value of a service, as far as modules read it.
#[derive(Clone, Debug)]
pub enum ParamValue {
    /// A string.
    Text(String),
    /// Any other value, as JSON text.
    Other(String),
}

/// A service: the module that answers it and the parameters handed to that module.
#[derive(Clone, Debug)]
pub struct Service {
    pub module: String,
    pub parameters: Vec<(String, ParamValue)>,
}

/// A route: the ports and hosts it accepts, its priority, and its locations
/// (regular expressions) with the services they lead to.
#[derive(Clone, Debug)]
pub struct Route {
    pub ports: Vec<String>,
    pub hosts: Vec<String>,
    pub priority: Option<usize>,
    pub paths: Vec<(String, String)>,
}

/// The status-code table: codes and their reason phrases.
#[derive(Clone, Debug)]
pub struct Data {
    pub status_codes: Vec<(String, String)>,
}

impl RouteShape for Route {
    open spec fn port_list(&self) -> Seq<String> {
        self.ports@
    }

    open spec fn host_list(&self) -> Seq<String> {
        self.hosts@
    }

    open spec fn rank(&self) -> Option<usize> {
        self.priority
    }

    open spec fn location_patterns(&self) -> Seq<String> {
        self.paths@.map_values(|p: (String, String)| p.0)
    }

    fn accepted_ports(&self) -> (r: &Vec<String>) {
        &self.ports
    }

    fn accepted_hosts(&self) -> (r: &Vec<String>) {
        &self.hosts
    }

    fn priority_of(&self) -> (r: Option<usize>) {
        self.priority
    }

    fn location_count(&self) -> (n: usize) {
        self.paths.len()
    }

    fn location_pattern(&self, k: usize) -> (p: &String) {
        &self.paths[k].0
    }
}

} // verus!
