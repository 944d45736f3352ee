//! The networking profiles of a sandbox.

use vstd::prelude::*;

verus! {

/// Network permission profile of a run.
#[derive(Clone, Copy, PartialEq, Eq, Structural, Debug)]
pub enum NetworkMode {
    /// No network access (isolated network namespace with only loopback).
    Isolated,
    /// DNS queries only: the host network, with only `/etc/resolv.conf`.
    Dns,
    /// HTTP/HTTPS: the host network with its name service and certificates.
    Http,
    /// Full internet access (shares host network namespace).
    Full,
    /// Only the domains of the allow-list, through the filtering proxy.
    Allow,
}

impl NetworkMode {
    /// `NetworkMode::Isolated`.
    pub fn default() -> (r: NetworkMode)
        ensures
            r == NetworkMode::Isolated,
    {
        NetworkMode::Isolated
    }

    /// The name of the mode, in lower case, as the command line writes it.
    pub fn name(&self) -> (r: String)
        ensures
            r@ == mode_name(*self),
    {
        match self {
            NetworkMode::Isolated => String::from_str("none"),
            NetworkMode::Dns => String::from_str("dns"),
            NetworkMode::Http => String::from_str("http"),
            NetworkMode::Full => String::from_str("full"),
            NetworkMode::Allow => String::from_str("allow"),
        }
    }
}

pub open spec fn mode_name(m: NetworkMode) -> Seq<char> {
    match m {
        NetworkMode::Isolated => "none"@,
        NetworkMode::Dns => "dns"@,
        NetworkMode::Http => "http"@,
        NetworkMode::Full => "full"@,
        NetworkMode::Allow => "allow"@,
    }
}

} // verus!
