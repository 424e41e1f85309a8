use vstd::prelude::*;

verus! {

/// The transport schemes the server can be reached over.
#[derive(Clone, Copy, Debug, PartialEq, Eq, Structural)]
pub enum HttpProtocol {
    Http,
    Https,
}

impl HttpProtocol {
    /// Returns the scheme's well-known TCP port.
    pub fn port(&self) -> (r: u16)
        ensures
            r == match *self {
                HttpProtocol::Http => 80u16,
                HttpProtocol::Https => 443u16,
            },
    {
        match self {
            HttpProtocol::Http => 80,
            HttpProtocol::Https => 443,
        }
    }
}

} // verus!
