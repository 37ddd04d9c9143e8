//! Where the relay listens.

use vstd::prelude::*;
use vstd::string::StringExecFns;

verus! {

/// The port that the relay listens on when none is configured.
pub open spec fn default_port() -> Seq<char> {
    "8080"@
}

/// The address to listen on: every interface, at the configured port or the
/// default one.
pub open spec fn listen_on(port: Option<String>) -> Seq<char> {
    "0.0.0.0:"@ + match port {
        Some(p) => p@,
        None => default_port(),
    }
}

/// The address to listen on: every interface, at the configured port, or at
/// port 8080 if none is configured.
pub fn listen_address(port: Option<String>) -> (address: String)
    ensures
        address@ == listen_on(port),
{
    let mut address = "0.0.0.0:".to_owned();
    match port {
        Some(p) => address.append(p.as_str()),
        None => address.append("8080"),
    }
    address
}

} // verus!
