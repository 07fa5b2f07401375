use vstd::prelude::*;

verus! {

/// The configuration of the telnet acceptor: the interface it binds and the
/// port it listens on.
///
/// The accept/read loop itself lives in the surrounding process; it reads
/// this record and forwards the bytes it receives to the model as events.
pub struct TelnetServer {
    /// The interface to bind, as text.
    pub host: String,
    /// The port to listen on.
    pub port: u16,
}

impl TelnetServer {
    /// A telnet acceptor configuration for the given interface and port.
    pub fn new(host: &str, port: u16) -> (r: TelnetServer)
        ensures
            r.host@ == host@,
            r.port == port,
    {
        TelnetServer { host: host.to_owned(), port }
    }
}

} // verus!
