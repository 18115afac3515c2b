//! Where a peer is, and what it offers there.
use crate::error::DiscoveryError;
use crate::text::{decimal, ends_with, has_suffix, tagged_decimal};
use vstd::prelude::*;
use vstd::string::*;

verus! {

pub type Hostname = String;

pub type Port = u16;

/// An IP address as a number: the 32 bits of an IPv4 address or the 128 bits
/// of an IPv6 address, most significant octet first. An IPv4 address and the
/// IPv6 address that maps it are two addresses.
#[derive(Clone, Copy, Debug, PartialEq, Eq, Hash, Structural)]
pub enum IpAddress {
    V4(u32),
    V6(u128),
}

/// An IP address and a port, such as the endpoint of a proxy.
#[derive(Clone, Copy, Debug, PartialEq, Eq, Hash, Structural)]
pub struct SocketAddress {
    pub ip: IpAddress,
    pub port: Port,
}

/// One thing a server offers: the protocol in the clear or over TLS, on a port.
#[derive(Clone, Copy, Debug, PartialEq, Eq, Hash, Structural)]
pub enum Service {
    Tcp(Port),
    Ssl(Port),
}

impl Service {
    /// How a service is written in a directory entry: `t` or `s`, then the port.
    pub open spec fn text(self) -> Seq<char> {
        match self {
            Service::Tcp(port) => seq!['t'] + decimal(port as nat),
            Service::Ssl(port) => seq!['s'] + decimal(port as nat),
        }
    }

    pub fn to_string(&self) -> (text: String)
        ensures
            text@ == self.text(),
    {
        proof {
            reveal_strlit("t");
            reveal_strlit("s");
        }
        let text = match self {
            Service::Tcp(port) => tagged_decimal("t", *port as u64),
            Service::Ssl(port) => tagged_decimal("s", *port as u64),
        };
        assert(text@ =~= self.text());
        text
    }
}

/// The address under which a server is kept: an IP address, or the name of an
/// onion service.
#[derive(Debug, PartialEq, Eq, Hash)]
pub enum ServerAddr {
    Clearnet(IpAddress),
    Onion(Hostname),
}

/// A `ServerAddr` as contracts see it.
pub enum AddrView {
    Clearnet(IpAddress),
    Onion(Seq<char>),
}

impl View for ServerAddr {
    type V = AddrView;

    open spec fn view(&self) -> AddrView {
        match *self {
            ServerAddr::Clearnet(ip) => AddrView::Clearnet(ip),
            ServerAddr::Onion(name) => AddrView::Onion(name@),
        }
    }
}

impl Clone for ServerAddr {
    fn clone(&self) -> (copy: Self)
        ensures
            copy@ == self@,
    {
        match self {
            ServerAddr::Clearnet(ip) => ServerAddr::Clearnet(*ip),
            ServerAddr::Onion(name) => ServerAddr::Onion(name.clone()),
        }
    }
}

/// The suffix that marks the name of an onion service.
pub open spec fn onion_suffix() -> Seq<char> {
    seq!['.', 'o', 'n', 'i', 'o', 'n']
}

pub open spec fn is_onion_name(host: Seq<char>) -> bool {
    has_suffix(host, onion_suffix())
}

/// What asking for the address of a host name gave.
#[derive(Clone, Copy, Debug, PartialEq, Eq, Structural)]
pub struct Lookup {
    /// The address that the name writes, if it is an IP literal.
    pub literal: Option<IpAddress>,
    /// The first address that name resolution gave, if it was asked and gave
    /// one.
    pub resolved: Option<IpAddress>,
}

impl Lookup {
    /// The address that was found: the one that the name writes, if it writes
    /// one, and else the one that name resolution gave.
    pub open spec fn address(self) -> Option<IpAddress> {
        match self.literal {
            Some(ip) => Some(ip),
            None => self.resolved,
        }
    }

    /// A lookup that found nothing.
    pub fn nothing() -> (found: Lookup)
        ensures
            found == (Lookup { literal: None, resolved: None }),
    {
        Lookup { literal: None, resolved: None }
    }

    /// The address that was found, an IP literal before anything else.
    pub fn found(&self) -> (ip: Option<IpAddress>)
        ensures
            ip == self.address(),
    {
        match self.literal {
            Some(ip) => Some(ip),
            None => self.resolved,
        }
    }
}

/// The address of `host`, given what looking it up gave: an onion name is its
/// own address, whatever was found; a name that is an IP literal has the
/// address that it writes; any other name has the address that name
/// resolution gave, or none.
pub open spec fn resolved(host: Seq<char>, found: Lookup) -> Option<AddrView> {
    if is_onion_name(host) {
        Some(AddrView::Onion(host))
    } else {
        match found.address() {
            Some(ip) => Some(AddrView::Clearnet(ip)),
            None => None,
        }
    }
}

/// Name resolution has to be asked for `host`: it is no onion name and no
/// IP literal.
pub open spec fn wants_resolution(host: Seq<char>, literal: Option<IpAddress>) -> bool {
    !is_onion_name(host) && literal is None
}

impl ServerAddr {
    /// Whether `host` names an onion service, which no lookup can resolve.
    pub fn is_onion(host: &str) -> (onion: bool)
        ensures
            onion == is_onion_name(host@),
    {
        proof {
            reveal_strlit(".onion");
        }
        assert(".onion"@ =~= onion_suffix());
        ends_with(host, ".onion")
    }

    /// Whether two addresses are the same.
    pub fn same_as(&self, other: &ServerAddr) -> (same: bool)
        ensures
            same == (self@ == other@),
    {
        match (self, other) {
            (ServerAddr::Clearnet(a), ServerAddr::Clearnet(b)) => *a == *b,
            (ServerAddr::Onion(a), ServerAddr::Onion(b)) => *a == *b,
            _ => false,
        }
    }

    /// Whether name resolution has to be asked for `host`, given the address
    /// that it writes if it is an IP literal.
    pub fn needs_resolution(host: &str, literal: Option<IpAddress>) -> (needed: bool)
        ensures
            needed == wants_resolution(host@, literal),
    {
        !ServerAddr::is_onion(host) && literal.is_none()
    }

    /// The address of `host`, given what looking it up gave. Nothing of it is
    /// read for an onion name, and an IP literal goes before what name
    /// resolution gave.
    pub fn resolve(host: &str, found: Lookup) -> (addr: Result<ServerAddr, DiscoveryError>)
        ensures
            match addr {
                Ok(a) => resolved(host@, found) == Some(a@),
                Err(e) => e == DiscoveryError::ResolutionError && resolved(host@, found) is None,
            },
    {
        if ServerAddr::is_onion(host) {
            Ok(ServerAddr::Onion(String::from_str(host)))
        } else {
            match found.found() {
                Some(ip) => Ok(ServerAddr::Clearnet(ip)),
                None => Err(DiscoveryError::ResolutionError),
            }
        }
    }
}

} // verus!
