//! Discovery configuration and its validation.
//!
//! The configuration is checked once, before any network activity; a manual
//! configuration must carry an endpoint, and nothing else can be invalid.

use vstd::prelude::*;

verus! {

/// How the bridge obtains the device endpoint.
#[derive(Debug, Clone, Copy, PartialEq, Eq)]
pub enum NovaDiscoveryMethod {
    /// SSDP should be attempted first.
    Ssdp,
    /// mDNS discovery is preferred.
    Mdns,
    /// Use a manually provided endpoint instead of discovery.
    Manual,
}

/// Host and port for a Nova OpenAPI endpoint.
#[derive(Debug, Clone, PartialEq, Eq)]
pub struct NovaEndpoint {
    pub host: String,
    pub port: u16,
}

/// Configuration for Nova discovery.
#[derive(Debug, Clone, PartialEq, Eq)]
pub struct NovaDiscoveryConfig {
    pub method: NovaDiscoveryMethod,
    pub discovery_timeout_secs: u64,
    pub reconnect_delay_secs: u64,
    pub manual_endpoint: Option<NovaEndpoint>,
}

/// Errors that can occur while validating a configuration.
#[derive(Debug, Clone, PartialEq, Eq)]
pub enum NovaConfigError {
    /// Manual mode was selected but no endpoint was provided.
    MissingManualEndpoint,
}

impl Default for NovaDiscoveryConfig {
    /// SSDP discovery with a five second timeout and a three second
    /// reconnect delay, and no manual endpoint.
    fn default() -> (c: Self)
        ensures
            c.method == NovaDiscoveryMethod::Ssdp,
            c.discovery_timeout_secs == 5,
            c.reconnect_delay_secs == 3,
            c.manual_endpoint is None,
    {
        Self {
            method: NovaDiscoveryMethod::Ssdp,
            discovery_timeout_secs: 5,
            reconnect_delay_secs: 3,
            manual_endpoint: None,
        }
    }
}

impl NovaDiscoveryConfig {
    /// A configuration is self-consistent unless it selects manual mode
    /// without providing the manual endpoint.
    pub open spec fn is_valid(self) -> bool {
        self.method is Manual ==> self.manual_endpoint is Some
    }

    /// Ensure the configuration is self-consistent.
    pub fn validate(&self) -> (r: Result<(), NovaConfigError>)
        ensures
            r is Ok <==> self.is_valid(),
            r is Err ==> r->Err_0 == NovaConfigError::MissingManualEndpoint,
    {
        if matches!(self.method, NovaDiscoveryMethod::Manual) && self.manual_endpoint.is_none() {
            Err(NovaConfigError::MissingManualEndpoint)
        } else {
            Ok(())
        }
    }
}

} // verus!
