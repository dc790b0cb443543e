//! Peers to connect to: seed records, ports, and the decisions of the
//! discovery loop that tests them.

use vstd::prelude::*;

use crate::encode::{array_of, lemma_array_of};
use crate::network::{IpAddress, NetAddress};

verus! {

/// A TCP port, kept as its two bytes, most significant first.
#[derive(Debug, Clone, Copy, PartialEq, Eq)]
pub struct Port(pub [u8; 2]);

impl Port {
    pub open spec fn spec_to_u16(self) -> u16 {
        (self.0[0] as nat * 256 + self.0[1] as nat) as u16
    }

    /// The port number.
    pub fn to_u16(&self) -> (r: u16)
        ensures
            r == self.spec_to_u16(),
    {
        (self.0[0] as u16) * 256 + (self.0[1] as u16)
    }
}

/// The port that holds the bytes of `port`, most significant first.
pub open spec fn port_of(port: u16) -> Port {
    Port(array_of::<2>(seq![(port / 256) as u8, (port % 256) as u8]))
}

impl From<u16> for Port {
    fn from(port: u16) -> (r: Port) {
        let r = Port([(port / 256) as u8, (port % 256) as u8]);
        proof {
            lemma_array_of(r.0);
            assert(r.0@ =~= seq![(port / 256) as u8, (port % 256) as u8]);
        }
        r
    }
}

impl vstd::std_specs::convert::FromSpecImpl<u16> for Port {
    open spec fn obeys_from_spec() -> bool {
        true
    }

    open spec fn from_spec(port: u16) -> Port {
        port_of(port)
    }
}

impl From<[u8; 2]> for Port {
    fn from(bytes: [u8; 2]) -> (r: Port) {
        Port(bytes)
    }
}

impl vstd::std_specs::convert::FromSpecImpl<[u8; 2]> for Port {
    open spec fn obeys_from_spec() -> bool {
        true
    }

    open spec fn from_spec(bytes: [u8; 2]) -> Port {
        Port(bytes)
    }
}

/// A peer to connect to: an IPv4 address and a port.
#[derive(Debug, Clone, Copy, PartialEq, Eq)]
pub struct Peer {
    pub addr: [u8; 4],
    pub port: Port,
}

/// Reads a seed record: four address bytes, then the port, most significant
/// byte first.
impl From<[u8; 6]> for Peer {
    fn from(seed: [u8; 6]) -> (r: Peer) {
        let r = Peer { addr: [seed[0], seed[1], seed[2], seed[3]], port: Port([seed[4], seed[5]]) };
        proof {
            assert(r.addr@ =~= seed@.take(4));
            assert(r.port.0@ =~= seed@.skip(4));
            lemma_array_of(r.addr);
            lemma_array_of(r.port.0);
        }
        r
    }
}

impl vstd::std_specs::convert::FromSpecImpl<[u8; 6]> for Peer {
    open spec fn obeys_from_spec() -> bool {
        true
    }

    open spec fn from_spec(seed: [u8; 6]) -> Peer {
        Peer { addr: array_of::<4>(seed@.take(4)), port: Port(array_of::<2>(seed@.skip(4))) }
    }
}

impl Peer {
    /// The peer at a network address; none for an IPv6 address, which a
    /// peer cannot hold.
    pub fn from_net_address(netaddr: NetAddress) -> (r: Option<Peer>)
        ensures
            match netaddr.address.ip {
                IpAddress::V4(a) => r == Some(
                    Peer { addr: a, port: port_of(netaddr.address.port) },
                ),
                IpAddress::V6(_) => r is None,
            },
    {
        match netaddr.address.ip {
            IpAddress::V4(a) => Some(Peer { addr: a, port: Port::from(netaddr.address.port) }),
            IpAddress::V6(_) => None,
        }
    }
}

/// Why peer discovery failed.
#[derive(Debug)]
pub enum Error {
    FailedToConnect(String),
}

/// What the discovery loop does next.
#[derive(Debug, Clone, Copy, PartialEq, Eq, Structural)]
pub enum DiscoveryStep {
    /// Test the untested candidates `start .. start + count` at once.
    Test { start: usize, count: usize },
    /// Enough working peers were found.
    Done,
    /// Every candidate was tested and too few of them work.
    Exhausted,
}

/// The next step of peer discovery, after `tested` of `total` candidates
/// were tried (in order) and `found` of them worked: stop once `min` peers
/// work, fail once every candidate was tried, else test the next `batch`
/// candidates (at least one, at most those left).
pub fn discovery_step(found: usize, tested: usize, total: usize, min: usize, batch: usize) -> (r:
    DiscoveryStep)
    requires
        tested <= total,
    ensures
        found >= min ==> r == DiscoveryStep::Done,
        found < min && tested == total ==> r == DiscoveryStep::Exhausted,
        found < min && tested < total ==> r == (DiscoveryStep::Test {
            start: tested,
            count: if batch == 0 {
                1
            } else if batch <= total - tested {
                batch
            } else {
                (total - tested) as usize
            },
        }),
{
    if found >= min {
        DiscoveryStep::Done
    } else if tested == total {
        DiscoveryStep::Exhausted
    } else {
        let left = total - tested;
        let count = if batch == 0 {
            1
        } else if batch <= left {
            batch
        } else {
            left
        };
        DiscoveryStep::Test { start: tested, count }
    }
}

} // verus!
