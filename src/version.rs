//! The `version` handshake payload.

use vstd::prelude::*;
use vstd::utf8::encode_utf8;

use crate::encode::{
    Decode, Decoded, Encode, Error, decode_le, le_bytes, lemma_decode_le_round_trip,
    lemma_le_bytes_len, lemma_le_value_bound, lemma_pow256_values, lemma_slice_len_bound, tail,
};
use crate::network::{
    Address, NetAddress, ServicesList, decode_net_address, decode_services, net_address_bytes,
    services_bytes,
    lemma_net_address_round_trip, lemma_services_round_trip,
};
use crate::varint::{decode_var_str, lemma_var_str_round_trip, var_str_bytes};

verus! {

/// The protocol version announced in the handshake.
pub const PROTOCOL_VERSION: u32 = 70015;

/// The payload of a `version` message.
#[derive(Debug, Clone, PartialEq, Eq)]
pub struct VersionMessage {
    pub version: u32,
    pub service: ServicesList,
    /// Seconds since the Unix epoch.
    pub timestamp: u64,
    pub addr_recv: NetAddress,
    pub addr_from: NetAddress,
    pub nonce: u64,
    pub agent: String,
    pub start_height: u32,
    pub relay: bool,
}

/// The mathematical model of a [`VersionMessage`].
pub struct VersionMessageView {
    pub version: u32,
    pub service: ServicesList,
    pub timestamp: u64,
    pub addr_recv: NetAddress,
    pub addr_from: NetAddress,
    pub nonce: u64,
    pub agent: Seq<char>,
    pub start_height: u32,
    pub relay: bool,
}

impl View for VersionMessage {
    type V = VersionMessageView;

    open spec fn view(&self) -> VersionMessageView {
        VersionMessageView {
            version: self.version,
            service: self.service,
            timestamp: self.timestamp,
            addr_recv: self.addr_recv,
            addr_from: self.addr_from,
            nonce: self.nonce,
            agent: self.agent@,
            start_height: self.start_height,
            relay: self.relay,
        }
    }
}

/// Relies on rand's `thread_rng().gen_range(0..u64::MAX)`: a number below
/// `u64::MAX`.
#[verifier::external_body]
fn random_nonce() -> (r: u64)
    ensures
        r < u64::MAX,
{
    rand::Rng::gen_range(&mut rand::thread_rng(), 0..u64::MAX)
}

impl VersionMessage {
    pub fn new(
        version: u32,
        service: ServicesList,
        timestamp: u64,
        addr_recv: NetAddress,
        addr_from: NetAddress,
        nonce: u64,
        agent: String,
        start_height: u32,
        relay: bool,
    ) -> (r: VersionMessage)
        ensures
            r.version == version,
            r.service == service,
            r.timestamp == timestamp,
            r.addr_recv == addr_recv,
            r.addr_from == addr_from,
            r.nonce == nonce,
            r.agent == agent,
            r.start_height == start_height,
            r.relay == relay,
    {
        VersionMessage {
            version,
            service,
            timestamp,
            addr_recv,
            addr_from,
            nonce,
            agent,
            start_height,
            relay,
        }
    }

    /// The handshake this node sends to `address` at `timestamp`: protocol
    /// version 70015, no services, this machine as sender, agent
    /// `bit-tune-v0.0.1`, height 0, no relaying (the nonce is left open).
    pub open spec fn is_handshake_for(self, address: Address, timestamp: u64) -> bool {
        &&& self.version == PROTOCOL_VERSION
        &&& self.service == ServicesList::spec_default()
        &&& self.timestamp == timestamp
        &&& self.addr_recv == (NetAddress { services: ServicesList::spec_default(), address })
        &&& self.addr_from.services == ServicesList::spec_default()
        &&& self.addr_from.address.ip is V4
        &&& self.addr_from.address.ip->V4_0@ == seq![0u8, 0u8, 0u8, 0u8]
        &&& self.addr_from.address.port == 0
        &&& self.agent@ == "bit-tune-v0.0.1"@
        &&& self.start_height == 0
        &&& !self.relay
    }

    /// The handshake for `address` at `timestamp` with the given nonce.
    pub fn for_peer_with_nonce(address: Address, timestamp: u64, nonce: u64) -> (r: VersionMessage)
        ensures
            r.is_handshake_for(address, timestamp),
            r.nonce == nonce,
    {
        VersionMessage {
            version: PROTOCOL_VERSION,
            service: ServicesList::default(),
            timestamp,
            addr_recv: NetAddress::new(ServicesList::default(), address),
            addr_from: NetAddress::default(),
            nonce,
            agent: String::from_str("bit-tune-v0.0.1"),
            start_height: 0,
            relay: false,
        }
    }

    /// The handshake this node sends to `address` at `timestamp`, with a
    /// random nonce.
    pub fn for_peer(address: Address, timestamp: u64) -> (r: VersionMessage)
        ensures
            r.is_handshake_for(address, timestamp),
            r.nonce < u64::MAX,
    {
        VersionMessage::for_peer_with_nonce(address, timestamp, random_nonce())
    }
}

/// The encoding of a version payload: its fields in order, the agent as a
/// length-prefixed string and the relay flag as one byte.
pub open spec fn version_bytes(m: VersionMessageView) -> Seq<u8> {
    le_bytes(m.version as nat, 4) + services_bytes(m.service) + le_bytes(
        m.timestamp as nat,
        8,
    ) + net_address_bytes(m.addr_recv) + net_address_bytes(m.addr_from) + le_bytes(
        m.nonce as nat,
        8,
    ) + var_str_bytes(m.agent) + le_bytes(m.start_height as nat, 4) + le_bytes(
        if m.relay {
            1
        } else {
            0
        },
        1,
    )
}

impl Encode for VersionMessage {
    open spec fn encodable(&self) -> bool {
        true
    }

    open spec fn spec_encode(&self) -> Seq<u8> {
        version_bytes(self@)
    }

    fn net_encode(&self, w: &mut Vec<u8>) -> (n: usize) {
        let ghost start = w@;
        let start_len = w.len();
        self.version.net_encode(w);
        self.service.net_encode(w);
        self.timestamp.net_encode(w);
        self.addr_recv.net_encode(w);
        self.addr_from.net_encode(w);
        self.nonce.net_encode(w);
        self.agent.net_encode(w);
        self.start_height.net_encode(w);
        let relay: u8 = if self.relay {
            1
        } else {
            0
        };
        relay.net_encode(w);
        assert(w@ =~= start + self.spec_encode());
        w.len() - start_len
    }
}

/// Reading a version payload, field after field.
pub open spec fn decode_version(b: Seq<u8>) -> Decoded<VersionMessageView> {
    match decode_le(b, 4) {
        Err(e) => Decoded::Err(e),
        Ok((version, _)) => match decode_services(b.skip(4)) {
            Err(e) => Decoded::Err(e),
            Ok((service, _)) => match decode_le(b.skip(12), 8) {
                Err(e) => Decoded::Err(e),
                Ok((timestamp, _)) => match decode_net_address(b.skip(20)) {
                    Err(e) => Decoded::Err(e),
                    Ok((addr_recv, _)) => match decode_net_address(b.skip(46)) {
                        Err(e) => Decoded::Err(e),
                        Ok((addr_from, _)) => match decode_le(b.skip(72), 8) {
                            Err(e) => Decoded::Err(e),
                            Ok((nonce, _)) => match decode_version_tail(b.skip(80)) {
                                Err(e) => Decoded::Err(e),
                                Ok(((agent, start_height, relay), k)) => Decoded::Ok(
                                    (
                                        VersionMessageView {
                                            version: version as u32,
                                            service,
                                            timestamp: timestamp as u64,
                                            addr_recv,
                                            addr_from,
                                            nonce: nonce as u64,
                                            agent,
                                            start_height,
                                            relay,
                                        },
                                        80 + k,
                                    ),
                                ),
                            },
                        },
                    },
                },
            },
        },
    }
}

/// Reading the fields of a version payload from the agent string on: the
/// agent, the start height and the relay flag (any byte but zero is set).
pub open spec fn decode_version_tail(b: Seq<u8>) -> Decoded<(Seq<char>, u32, bool)> {
    match decode_var_str(b) {
        Err(e) => Decoded::Err(e),
        Ok((agent, k)) => match decode_le(b.skip(k as int), 4) {
            Err(e) => Decoded::Err(e),
            Ok((start_height, _)) => match decode_le(b.skip((k + 4) as int), 1) {
                Err(e) => Decoded::Err(e),
                Ok((relay, _)) => Decoded::Ok(((agent, start_height as u32, relay != 0), k + 5)),
            },
        },
    }
}

fn decode_version_tail_exec(bytes: &[u8]) -> (res: Result<(String, u32, bool, usize), Error>)
    ensures
        match res {
            Ok((agent, start_height, relay, n)) => decode_version_tail(bytes@) == Decoded::Ok(
                ((agent@, start_height, relay), n as nat),
            ) && n <= bytes@.len(),
            Err(e) => decode_version_tail(bytes@) == Decoded::<(Seq<char>, u32, bool)>::Err(e@),
        },
{
    proof {
        lemma_slice_len_bound(bytes);
    }
    let (agent, k) = match String::net_decode(bytes) {
        Ok((x, k)) => (x, k),
        Err(e) => return Err(e),
    };
    let rest = tail(bytes, k);
    let start_height = match u32::net_decode(rest) {
        Ok((x, _)) => x,
        Err(e) => return Err(e),
    };
    let rest2 = tail(rest, 4);
    assert(rest2@ =~= bytes@.skip((k + 4) as int));
    let relay = match u8::net_decode(rest2) {
        Ok((x, _)) => x,
        Err(e) => return Err(e),
    };
    proof {
        lemma_pow256_values();
        lemma_le_value_bound(rest@.take(4));
        lemma_le_value_bound(rest2@.take(1));
    }
    let relay_set: bool = relay != 0;
    Ok((agent, start_height, relay_set, k + 5))
}

impl Decode for VersionMessage {
    open spec fn spec_decode(bytes: Seq<u8>) -> Decoded<VersionMessageView> {
        decode_version(bytes)
    }

    fn net_decode(bytes: &[u8]) -> (res: Result<(VersionMessage, usize), Error>) {
        proof {
            lemma_slice_len_bound(bytes);
        }
        let version = match u32::net_decode(bytes) {
            Ok((x, _)) => x,
            Err(e) => return Err(e),
        };
        let service = match crate::network::decode_services_exec(tail(bytes, 4)) {
            Ok((x, _)) => x,
            Err(e) => return Err(e),
        };
        let timestamp = match u64::net_decode(tail(bytes, 12)) {
            Ok((x, _)) => x,
            Err(e) => return Err(e),
        };
        let addr_recv = match NetAddress::net_decode(tail(bytes, 20)) {
            Ok((x, _)) => x,
            Err(e) => return Err(e),
        };
        let addr_from = match NetAddress::net_decode(tail(bytes, 46)) {
            Ok((x, _)) => x,
            Err(e) => return Err(e),
        };
        let nonce = match u64::net_decode(tail(bytes, 72)) {
            Ok((x, _)) => x,
            Err(e) => return Err(e),
        };
        let (agent, start_height, relay, k) = match decode_version_tail_exec(tail(bytes, 80)) {
            Ok(x) => x,
            Err(e) => return Err(e),
        };
        proof {
            lemma_pow256_values();
            lemma_le_value_bound(bytes@.take(4));
            lemma_le_value_bound(bytes@.skip(12).take(8));
            lemma_le_value_bound(bytes@.skip(72).take(8));
        }
        let r = VersionMessage {
            version,
            service,
            timestamp,
            addr_recv,
            addr_from,
            nonce,
            agent,
            start_height,
            relay,
        };
        Ok((r, 80 + k))
    }
}

/// The agent, start height and relay flag decode back from their encoding.
proof fn lemma_version_tail_round_trip(m: VersionMessage, rest: Seq<u8>)
    requires
        encode_utf8(m.agent@).len() <= usize::MAX,
    ensures
        decode_version_tail(m.agent.spec_encode() + le_bytes(m.start_height as nat, 4) + le_bytes(
            if m.relay {
                1
            } else {
                0
            },
            1,
        ) + rest) == Decoded::Ok(
            ((m.agent@, m.start_height, m.relay), m.agent.spec_encode().len() + 5),
        ),
{
    lemma_pow256_values();
    let relay: nat = if m.relay {
        1
    } else {
        0
    };
    let e7 = m.agent.spec_encode();
    let e8 = le_bytes(m.start_height as nat, 4);
    let e9 = le_bytes(relay, 1);
    lemma_le_bytes_len(m.start_height as nat, 4);
    lemma_le_bytes_len(relay, 1);
    let k = e7.len();
    let r9 = e9 + rest;
    let r8 = e8 + r9;
    let b = e7 + e8 + e9 + rest;
    assert(b =~= e7 + r8);
    assert(b.skip(k as int) =~= r8);
    assert(b.skip((k + 4) as int) =~= r9);
    lemma_var_str_round_trip(m.agent, r8);
    lemma_decode_le_round_trip(m.start_height as nat, 4, r9);
    lemma_decode_le_round_trip(relay, 1, rest);
}

/// The fixed-width fields at the start of a version payload decode back.
#[verifier::spinoff_prover]
#[verifier::rlimit(60)]
proof fn lemma_version_head_round_trip(m: VersionMessage, rest: Seq<u8>)
    requires
        m.service.canonical(),
        m.addr_recv.wf(),
        m.addr_from.wf(),
    ensures
        ({
            let b = m.spec_encode() + rest;
            &&& decode_le(b, 4) == Decoded::Ok((m.version as nat, 4nat))
            &&& decode_services(b.skip(4)) == Decoded::Ok((m.service, 8nat))
            &&& decode_le(b.skip(12), 8) == Decoded::Ok((m.timestamp as nat, 8nat))
            &&& decode_net_address(b.skip(20)) == Decoded::Ok((m.addr_recv, 26nat))
            &&& decode_net_address(b.skip(46)) == Decoded::Ok((m.addr_from, 26nat))
            &&& decode_le(b.skip(72), 8) == Decoded::Ok((m.nonce as nat, 8nat))
            &&& b.skip(80) == m.agent.spec_encode() + le_bytes(m.start_height as nat, 4) + le_bytes(
                if m.relay {
                    1
                } else {
                    0
                },
                1,
            ) + rest
        }),
{
    lemma_pow256_values();
    let relay: nat = if m.relay {
        1
    } else {
        0
    };
    let e1 = le_bytes(m.version as nat, 4);
    let e2 = m.service.spec_encode();
    let e3 = le_bytes(m.timestamp as nat, 8);
    let e4 = m.addr_recv.spec_encode();
    let e5 = m.addr_from.spec_encode();
    let e6 = le_bytes(m.nonce as nat, 8);
    let t = m.agent.spec_encode() + le_bytes(m.start_height as nat, 4) + le_bytes(relay, 1);
    lemma_le_bytes_len(m.version as nat, 4);
    lemma_le_bytes_len(m.service.spec_mask() as nat, 8);
    lemma_le_bytes_len(m.timestamp as nat, 8);
    lemma_le_bytes_len(m.addr_recv.services.spec_mask() as nat, 8);
    lemma_le_bytes_len(m.addr_from.services.spec_mask() as nat, 8);
    lemma_le_bytes_len(m.nonce as nat, 8);
    let b = m.spec_encode() + rest;
    let r7 = t + rest;
    let r6 = e6 + r7;
    let r5 = e5 + r6;
    let r4 = e4 + r5;
    let r3 = e3 + r4;
    let r2 = e2 + r3;
    assert(b =~= e1 + r2);
    assert(b.skip(4) =~= r2);
    assert(b.skip(12) =~= r3);
    assert(b.skip(20) =~= r4);
    assert(b.skip(46) =~= r5);
    assert(b.skip(72) =~= r6);
    assert(b.skip(80) =~= r7);
    lemma_decode_le_round_trip(m.version as nat, 4, r2);
    lemma_services_round_trip(m.service, r3);
    lemma_decode_le_round_trip(m.timestamp as nat, 8, r4);
    lemma_net_address_round_trip(m.addr_recv, r5);
    lemma_net_address_round_trip(m.addr_from, r6);
    lemma_decode_le_round_trip(m.nonce as nat, 8, r7);
}

/// A version payload decodes back from its encoding, whatever follows it.
pub proof fn lemma_version_round_trip(m: VersionMessage, rest: Seq<u8>)
    requires
        m.service.canonical(),
        m.addr_recv.wf(),
        m.addr_from.wf(),
        encode_utf8(m.agent@).len() <= usize::MAX,
    ensures
        decode_version(m.spec_encode() + rest) == Decoded::Ok((m@, m.spec_encode().len())),
{
    lemma_version_head_round_trip(m, rest);
    lemma_version_tail_round_trip(m, rest);
    lemma_le_bytes_len(m.version as nat, 4);
    lemma_le_bytes_len(m.service.spec_mask() as nat, 8);
    lemma_le_bytes_len(m.timestamp as nat, 8);
    lemma_le_bytes_len(m.addr_recv.services.spec_mask() as nat, 8);
    lemma_le_bytes_len(m.addr_from.services.spec_mask() as nat, 8);
    lemma_le_bytes_len(m.nonce as nat, 8);
    lemma_le_bytes_len(m.start_height as nat, 4);
    lemma_le_bytes_len(if m.relay { 1 } else { 0 }, 1);
    assert(m.spec_encode().len() == 80 + m.agent.spec_encode().len() + 5);
}

} // verus!
