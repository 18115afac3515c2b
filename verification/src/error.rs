//! The reasons for which the discovery manager turns something down.
use vstd::prelude::*;
use vstd::string::*;

verus! {

/// What makes a peer unfit to talk to.
#[derive(Clone, Copy, Debug, PartialEq, Eq, Structural)]
pub enum Incompatibility {
    /// Its genesis hash is that of another network.
    Network,
    /// Its protocol range does not hold our version.
    ProtocolVersion,
    /// It hashes with something other than the required function.
    HashFunction,
}

/// Why a probe could not be made, or what became of it.
#[derive(Clone, Copy, Debug, PartialEq, Eq, Structural)]
pub enum ProbeFailure {
    /// An onion host is to be dialled and no proxy is configured.
    NoProxyConfigured,
    /// TLS to an onion host is not offered.
    UnsupportedTransport,
    /// Connecting, the handshake or the protocol exchange failed.
    Unreachable,
}

#[derive(Clone, Copy, Debug, PartialEq, Eq, Structural)]
pub enum DiscoveryError {
    /// The host name gave no address.
    ResolutionError,
    IncompatiblePeer(Incompatibility),
    /// The queue holds as many jobs as it may.
    QueueFull,
    /// An announcement left no job to add, or more than there is room for.
    NoNewEntries,
    ProbeFailure(ProbeFailure),
}

impl DiscoveryError {
    /// The text that goes with each error.
    pub open spec fn message_text(self) -> Seq<char> {
        match self {
            DiscoveryError::ResolutionError => "hostname resolution failed"@,
            DiscoveryError::IncompatiblePeer(Incompatibility::Network) => "incompatible networks"@,
            DiscoveryError::IncompatiblePeer(Incompatibility::ProtocolVersion) =>
                "incompatible protocol versions"@,
            DiscoveryError::IncompatiblePeer(Incompatibility::HashFunction) =>
                "incompatible hash function"@,
            DiscoveryError::QueueFull => "queue size exceeded"@,
            DiscoveryError::NoNewEntries => "no new valid entries"@,
            DiscoveryError::ProbeFailure(ProbeFailure::NoProxyConfigured) =>
                "no tor proxy configured, onion hosts are unsupported"@,
            DiscoveryError::ProbeFailure(ProbeFailure::UnsupportedTransport) =>
                "ssl over onion is unsupported"@,
            DiscoveryError::ProbeFailure(ProbeFailure::Unreachable) => "peer is unreachable"@,
        }
    }

    pub fn message(&self) -> (text: String)
        ensures
            text@ == self.message_text(),
    {
        let text = match self {
            DiscoveryError::ResolutionError => "hostname resolution failed",
            DiscoveryError::IncompatiblePeer(Incompatibility::Network) => "incompatible networks",
            DiscoveryError::IncompatiblePeer(Incompatibility::ProtocolVersion) =>
                "incompatible protocol versions",
            DiscoveryError::IncompatiblePeer(Incompatibility::HashFunction) =>
                "incompatible hash function",
            DiscoveryError::QueueFull => "queue size exceeded",
            DiscoveryError::NoNewEntries => "no new valid entries",
            DiscoveryError::ProbeFailure(ProbeFailure::NoProxyConfigured) =>
                "no tor proxy configured, onion hosts are unsupported",
            DiscoveryError::ProbeFailure(ProbeFailure::UnsupportedTransport) =>
                "ssl over onion is unsupported",
            DiscoveryError::ProbeFailure(ProbeFailure::Unreachable) => "peer is unreachable",
        };
        String::from_str(text)
    }
}

} // verus!
