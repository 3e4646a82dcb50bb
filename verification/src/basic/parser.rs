//! The configuration of the plain router.
//!
//! Maps of the configuration file are held as entry lists in the order in which
//! they were read.
use vstd::prelude::*;
use crate::route_table::RouteShape;

verus! {

/// The whole configuration.
#[derive(Clone, Debug)]
pub struct Config {
    pub http: Http,
}

/// The HTTP part of the configuration.
#[derive(Clone, Debug)]
pub struct Http {
    /// Route names and routes.
    pub routes: Vec<(String, Route)>,
    /// Service names and services.
    pub services: Vec<(String, Service)>,
}

/// A service: a module and an action of it.
#[derive(Clone, Debug)]
pub struct Service {
    pub module: String,
    pub action: String,
}

/// A route: the ports and hosts it accepts, optional flags, its priority, and
/// its locations (regular expressions) with where they lead.
#[derive(Clone, Debug)]
pub struct Route {
    pub ports: Vec<String>,
    pub hosts: Vec<String>,
    pub force_host: Option<bool>,
    pub force_ssl: Option<bool>,
    pub priority: Option<usize>,
    pub paths: Vec<(String, Path)>,
}

/// Where a location leads: a service name.
#[derive(Clone, Debug)]
pub struct Path {
    pub service: String,
}

impl RouteShape for Route {
    open spec fn port_list(&self) -> Seq<String> {
        self.ports@
    }

    open spec fn host_list(&self) -> Seq<String> {
        self.hosts@
    }

    open spec fn rank(&self) -> Option<usize> {
        self.priority
    }

    open spec fn location_patterns(&self) -> Seq<String> {
        self.paths@.map_values(|p: (String, Path)| p.0)
    }

    fn accepted_ports(&self) -> (r: &Vec<String>) {
        &self.ports
    }

    fn accepted_hosts(&self) -> (r: &Vec<String>) {
        &self.hosts
    }

    fn priority_of(&self) -> (r: Option<usize>) {
        self.priority
    }

    fn location_count(&self) -> (n: usize) {
        self.paths.len()
    }

    fn location_pattern(&self, k: usize) -> (p: &String) {
        &self.paths[k].0
    }
}

} // verus!
