//! What a peer says of itself in the feature handshake.
use crate::address::{Hostname, Port, Service};
use crate::text::{decimal, push_decimal};
use bitcoin::BlockHash;
use vstd::prelude::*;
use vstd::string::*;

verus! {

/// `bitcoin::BlockHash`, the identity of a block and, for a genesis block, of a
/// whole network. The library carries such values and compares them; it never
/// looks inside one.
#[verifier::external_type_specification]
#[verifier::external_body]
pub struct ExBlockHash(BlockHash);

/// Compares two block hashes with `BlockHash`'s own `==`, the derived
/// `PartialEq`, which compares the 32 bytes. Claimed of it: the answer is
/// `true` exactly when both are the same hash.
#[verifier::external_body]
pub(crate) fn same_block_hash(a: &BlockHash, b: &BlockHash) -> (same: bool)
    ensures
        same == (*a == *b),
{
    a == b
}

/// A version of the Electrum protocol, such as 1.4.
#[derive(Clone, Copy, Debug, PartialEq, Eq, PartialOrd, Ord, Hash, Structural)]
pub struct ProtocolVersion {
    pub major: usize,
    pub minor: usize,
}

impl ProtocolVersion {
    /// Versions are ordered by their major number, then by their minor number.
    pub open spec fn at_most(self, other: ProtocolVersion) -> bool {
        self.major < other.major || (self.major == other.major && self.minor <= other.minor)
    }

    /// Major and minor number in decimal with a dot between them.
    pub open spec fn text(self) -> Seq<char> {
        decimal(self.major as nat) + seq!['.'] + decimal(self.minor as nat)
    }

    pub fn new(major: usize, minor: usize) -> (version: ProtocolVersion)
        ensures
            version == (ProtocolVersion { major, minor }),
    {
        ProtocolVersion { major, minor }
    }

    pub fn is_at_most(&self, other: &ProtocolVersion) -> (r: bool)
        ensures
            r == self.at_most(*other),
    {
        self.major < other.major || (self.major == other.major && self.minor <= other.minor)
    }

    pub fn to_string(&self) -> (text: String)
        ensures
            text@ == self.text(),
    {
        proof {
            reveal_strlit(".");
        }
        let mut text = String::new();
        push_decimal(&mut text, self.major as u64);
        text.append(".");
        push_decimal(&mut text, self.minor as u64);
        assert(text@ =~= self.text());
        text
    }
}

/// The ports that a peer advertises for one of its host names.
#[derive(Clone, Copy, Debug, PartialEq, Eq, Structural)]
pub struct ServerPorts {
    pub tcp_port: Option<Port>,
    pub ssl_port: Option<Port>,
}

impl ServerPorts {
    /// The services behind the ports: the plain one first, then the TLS one.
    pub open spec fn services(self) -> Seq<Service> {
        let tcp = match self.tcp_port {
            Some(port) => seq![Service::Tcp(port)],
            None => Seq::<Service>::empty(),
        };
        let ssl = match self.ssl_port {
            Some(port) => seq![Service::Ssl(port)],
            None => Seq::<Service>::empty(),
        };
        tcp + ssl
    }
}

/// The answer to a feature handshake.
#[derive(Debug)]
pub struct ServerFeatures {
    /// The host names that the peer goes by, each with its ports.
    pub hosts: Vec<(Hostname, ServerPorts)>,
    pub genesis_hash: BlockHash,
    pub server_version: String,
    pub protocol_min: ProtocolVersion,
    pub protocol_max: ProtocolVersion,
    pub pruning: Option<usize>,
    pub hash_function: String,
}

/// Advertised hosts as contracts see them.
pub open spec fn host_views(hosts: Seq<(Hostname, ServerPorts)>) -> Seq<(Seq<char>, ServerPorts)> {
    Seq::new(hosts.len(), |i: int| (hosts[i].0@, hosts[i].1))
}

/// `ServerFeatures` as contracts see them.
pub struct FeaturesView {
    pub hosts: Seq<(Seq<char>, ServerPorts)>,
    pub genesis_hash: BlockHash,
    pub server_version: Seq<char>,
    pub protocol_min: ProtocolVersion,
    pub protocol_max: ProtocolVersion,
    pub pruning: Option<usize>,
    pub hash_function: Seq<char>,
}

impl View for ServerFeatures {
    type V = FeaturesView;

    open spec fn view(&self) -> FeaturesView {
        FeaturesView {
            hosts: host_views(self.hosts@),
            genesis_hash: self.genesis_hash,
            server_version: self.server_version@,
            protocol_min: self.protocol_min,
            protocol_max: self.protocol_max,
            pruning: self.pruning,
            hash_function: self.hash_function@,
        }
    }
}

impl Clone for ServerFeatures {
    fn clone(&self) -> (copy: Self)
        ensures
            copy@ == self@,
    {
        let mut hosts: Vec<(Hostname, ServerPorts)> = Vec::new();
        let mut i: usize = 0;
        while i < self.hosts.len()
            invariant
                i <= self.hosts.len(),
                host_views(hosts@) =~= host_views(self.hosts@).take(i as int),
            decreases self.hosts.len() - i,
        {
            let name = self.hosts[i].0.clone();
            let ports = self.hosts[i].1;
            assert(host_views(self.hosts@)[i as int] == (name@, ports));
            assert(host_views(self.hosts@).take(i + 1) =~= host_views(self.hosts@).take(
                i as int,
            ).push((name@, ports)));
            hosts.push((name, ports));
            i += 1;
        }
        assert(host_views(hosts@) =~= host_views(self.hosts@));
        ServerFeatures {
            hosts,
            genesis_hash: self.genesis_hash,
            server_version: self.server_version.clone(),
            protocol_min: self.protocol_min,
            protocol_max: self.protocol_max,
            pruning: self.pruning,
            hash_function: self.hash_function.clone(),
        }
    }
}

} // verus!
