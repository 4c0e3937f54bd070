use crate::http::{spec_header_lookup, RequestData};
use crate::registry::Endpoint;
use vstd::prelude::*;

verus! {

/// Relies on `std::time::SystemTime::now`: the clock decides the value,
/// so nothing is promised of it.
#[verifier::external_body]
fn now_millis() -> u64 {
    match std::time::SystemTime::now().duration_since(std::time::SystemTime::UNIX_EPOCH) {
        Ok(d) => d.as_millis() as u64,
        Err(_) => 0,
    }
}

/// Per-request state owned by the dispatcher: where the request came
/// from, what it originally looked like, and what routing decided.
#[derive(Debug)]
pub struct GatewayContext {
    pub remote_addr: Option<String>,
    pub start_time: u64,
    pub orig_scheme: String,
    pub orig_host: Option<String>,
    pub orig_path: String,
    pub route_id: Option<String>,
    pub upstream_id: Option<String>,
    pub overwrite_host: bool,
    pub available_endpoints: Vec<Endpoint>,
}

impl GatewayContext {
    /// A fresh context: the original scheme, host and path are recorded,
    /// no routing decision is taken yet.
    pub fn new(remote_addr: Option<String>, orig_scheme: String, req: &RequestData) -> (r:
        GatewayContext)
        ensures
            r.remote_addr == remote_addr,
            r.orig_scheme == orig_scheme,
            match r.orig_host {
                Some(h) => spec_header_lookup(req@.headers, "host"@) == Some(h@),
                None => spec_header_lookup(req@.headers, "host"@) is None,
            },
            r.orig_path@ == req.path@,
            r.route_id is None,
            r.upstream_id is None,
            !r.overwrite_host,
            r.available_endpoints@.len() == 0,
    {
        let orig_host = match req.get_header("host") {
            Some(h) => Some(h.clone()),
            None => None,
        };
        GatewayContext {
            remote_addr,
            start_time: now_millis(),
            orig_scheme,
            orig_host,
            orig_path: req.path.clone(),
            route_id: None,
            upstream_id: None,
            overwrite_host: false,
            available_endpoints: Vec::new(),
        }
    }
}

} // verus!
