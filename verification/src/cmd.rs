use vstd::prelude::*;

verus! {

/// The configuration the command line produces.
///
/// The surrounding process parses the arguments and validates the port and
/// timeout fields before building this record; the model consumes only the
/// telnet port.
pub struct CmdArgs {
    /// The host that proxies are expected on.
    pub proxy_host: String,
    /// The port that proxies are expected on.
    pub proxy_port: u16,
    /// The port the telnet acceptor listens on.
    pub telnet_port: u16,
    /// The liveness timeout, in whole seconds; positive.
    pub timeout: u64,
}

} // verus!
