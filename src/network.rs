//! Node service flags, peer addresses and the records that carry them.

use vstd::prelude::*;

use crate::encode::{
    Decode, Decoded, Encode, Error, ErrorView, array_of, decode_le, lemma_array_of, le_bytes,
    lemma_le_bytes_len, lemma_le_value_bound, lemma_pow256_values, read_le, write_le,
};
use crate::header::zeros;

verus! {

/// A capability that a node announces.
#[derive(Debug, Clone, Copy, PartialEq, Eq, Hash, Structural)]
pub enum Service {
    /// No service: the explicit "nothing offered" flag.
    NoService,
    /// Full chain history available.
    Network,
    /// Can be queried for unspent outputs.
    GetUTXO,
    /// Handles bloom-filtered connections.
    Bloom,
    /// Witness data available.
    Witness,
    /// Serves basic block filters.
    CompactFilters,
    /// Serves the blocks of the last two days.
    NetworkLimited,
}

impl Service {
    /// The flag's bit in the services mask (bit 0, 1, 2, 3, 6 or 10; none for `None`).
    pub open spec fn spec_value(self) -> u64 {
        match self {
            Service::NoService => 0,
            Service::Network => 1,
            Service::GetUTXO => 2,
            Service::Bloom => 4,
            Service::Witness => 8,
            Service::CompactFilters => 64,
            Service::NetworkLimited => 1024,
        }
    }

    pub fn value(&self) -> (r: u64)
        ensures
            r == self.spec_value(),
    {
        match self {
            Service::NoService => 0,
            Service::Network => 1,
            Service::GetUTXO => 2,
            Service::Bloom => 4,
            Service::Witness => 8,
            Service::CompactFilters => 64,
            Service::NetworkLimited => 1024,
        }
    }

    /// The flag whose bit value is `flag`, if any.
    pub open spec fn from_bit(flag: u64) -> Option<Service> {
        if flag == 0 {
            Some(Service::NoService)
        } else if flag == 1 {
            Some(Service::Network)
        } else if flag == 2 {
            Some(Service::GetUTXO)
        } else if flag == 4 {
            Some(Service::Bloom)
        } else if flag == 8 {
            Some(Service::Witness)
        } else if flag == 64 {
            Some(Service::CompactFilters)
        } else if flag == 1024 {
            Some(Service::NetworkLimited)
        } else {
            None
        }
    }

    /// The flag whose bit value is `flag`; any other value is invalid.
    pub fn try_from_bit(flag: u64) -> (r: Result<Service, Error>)
        ensures
            match Service::from_bit(flag) {
                Some(s) => r == Ok::<Service, Error>(s),
                None => r == Err::<Service, Error>(Error::InvalidData),
            },
            r matches Ok(s) ==> s.spec_value() == flag,
    {
        match flag {
            0 => Ok(Service::NoService),
            1 => Ok(Service::Network),
            2 => Ok(Service::GetUTXO),
            4 => Ok(Service::Bloom),
            8 => Ok(Service::Witness),
            64 => Ok(Service::CompactFilters),
            1024 => Ok(Service::NetworkLimited),
            _ => Err(Error::InvalidData),
        }
    }
}

/// A set of service flags, one field for each flag.
#[derive(Debug, Clone, Copy, PartialEq, Eq, Structural)]
pub struct ServicesList {
    pub no_service: bool,
    pub network: bool,
    pub get_utxo: bool,
    pub bloom: bool,
    pub witness: bool,
    pub compact_filters: bool,
    pub network_limited: bool,
}

impl ServicesList {
    pub open spec fn has(self, s: Service) -> bool {
        match s {
            Service::NoService => self.no_service,
            Service::Network => self.network,
            Service::GetUTXO => self.get_utxo,
            Service::Bloom => self.bloom,
            Service::Witness => self.witness,
            Service::CompactFilters => self.compact_filters,
            Service::NetworkLimited => self.network_limited,
        }
    }

    /// The list with no flag at all.
    pub open spec fn empty() -> ServicesList {
        ServicesList {
            no_service: false,
            network: false,
            get_utxo: false,
            bloom: false,
            witness: false,
            compact_filters: false,
            network_limited: false,
        }
    }

    /// The list that holds only `Service::NoService`.
    pub open spec fn spec_default() -> ServicesList {
        ServicesList { no_service: true, ..ServicesList::empty() }
    }

    /// The mask that the list encodes to: the bits of its flags together.
    pub open spec fn spec_mask(self) -> u64 {
        ((if self.network { 1u64 } else { 0u64 }) + (if self.get_utxo { 2u64 } else { 0u64 }) + (
        if self.bloom { 4u64 } else { 0u64 }) + (if self.witness { 8u64 } else { 0u64 }) + (
        if self.compact_filters { 64u64 } else { 0u64 }) + (if self.network_limited { 1024u64 } else {
            0u64
        })) as u64
    }

    /// The flags whose bits are set in `v` (`None` is never among them).
    pub open spec fn from_bits(v: u64) -> ServicesList {
        ServicesList {
            no_service: false,
            network: v % 2 == 1,
            get_utxo: (v / 2) % 2 == 1,
            bloom: (v / 4) % 2 == 1,
            witness: (v / 8) % 2 == 1,
            compact_filters: (v / 64) % 2 == 1,
            network_limited: (v / 1024) % 2 == 1,
        }
    }

    /// A list that reads back as itself: it holds some flag, and `None` only alone.
    pub open spec fn canonical(self) -> bool {
        &&& self != ServicesList::empty()
        &&& self.no_service ==> self == ServicesList::spec_default()
    }

    pub fn new() -> (r: ServicesList)
        ensures
            r@ == Set::<Service>::empty(),
            r == ServicesList::empty(),
    {
        let r = ServicesList {
            no_service: false,
            network: false,
            get_utxo: false,
            bloom: false,
            witness: false,
            compact_filters: false,
            network_limited: false,
        };
        assert(r@ =~= Set::<Service>::empty());
        r
    }

    pub fn add_flag(&mut self, flag: Service)
        ensures
            final(self)@ == old(self)@.insert(flag),
    {
        match flag {
            Service::NoService => self.no_service = true,
            Service::Network => self.network = true,
            Service::GetUTXO => self.get_utxo = true,
            Service::Bloom => self.bloom = true,
            Service::Witness => self.witness = true,
            Service::CompactFilters => self.compact_filters = true,
            Service::NetworkLimited => self.network_limited = true,
        }
        assert(self@ =~= old(self)@.insert(flag));
    }

    /// The flags of the list, each once, in the order of the flag table.
    pub fn get_flags(&self) -> (r: Vec<Service>)
        ensures
            r@.no_duplicates(),
            forall|s: Service| r@.contains(s) <==> self@.contains(s),
    {
        let mut r: Vec<Service> = Vec::new();
        push_flag(&mut r, self.no_service, Service::NoService);
        push_flag(&mut r, self.network, Service::Network);
        push_flag(&mut r, self.get_utxo, Service::GetUTXO);
        push_flag(&mut r, self.bloom, Service::Bloom);
        push_flag(&mut r, self.witness, Service::Witness);
        push_flag(&mut r, self.compact_filters, Service::CompactFilters);
        push_flag(&mut r, self.network_limited, Service::NetworkLimited);
        r
    }

    fn mask(&self) -> (m: u64)
        ensures
            m == self.spec_mask(),
    {
        let mut m: u64 = 0;
        if self.network {
            m = m + 1;
        }
        if self.get_utxo {
            m = m + 2;
        }
        if self.bloom {
            m = m + 4;
        }
        if self.witness {
            m = m + 8;
        }
        if self.compact_filters {
            m = m + 64;
        }
        if self.network_limited {
            m = m + 1024;
        }
        m
    }
}

impl View for ServicesList {
    type V = Set<Service>;

    open spec fn view(&self) -> Set<Service> {
        Set::new(|s: Service| self.has(s))
    }
}

/// Appends `s` when `present` holds.
fn push_flag(r: &mut Vec<Service>, present: bool, s: Service)
    requires
        old(r)@.no_duplicates(),
        !old(r)@.contains(s),
    ensures
        final(r)@.no_duplicates(),
        forall|x: Service| final(r)@.contains(x) <==> (old(r)@.contains(x) || (present && x == s)),
{
    if present {
        let ghost before = r@;
        r.push(s);
        proof {
            let after = r@;
            assert(after == before.push(s));
            assert forall|x: Service| after.contains(x) <==> (before.contains(x) || x == s) by {
                if before.contains(x) {
                    let i = choose|i: int| 0 <= i < before.len() && before[i] == x;
                    assert(after[i] == x);
                }
                if x == s {
                    assert(after[before.len() as int] == x);
                }
                if after.contains(x) {
                    let i = choose|i: int| 0 <= i < after.len() && after[i] == x;
                    if i < before.len() {
                        assert(before[i] == x);
                    }
                }
            }
            assert forall|i: int, j: int|
                0 <= i < after.len() && 0 <= j < after.len() && i != j implies after[i]
                != after[j] by {
                if i < before.len() && j < before.len() {
                } else if i < before.len() {
                    assert(before.contains(after[i]));
                } else {
                    assert(before.contains(after[j]));
                }
            }
        }
    }
}

/// The list that holds only `Service::NoService`.
impl Default for ServicesList {
    fn default() -> (r: ServicesList)
        ensures
            r == ServicesList::spec_default(),
            r@ == set![Service::NoService],
    {
        let r = ServicesList {
            no_service: true,
            network: false,
            get_utxo: false,
            bloom: false,
            witness: false,
            compact_filters: false,
            network_limited: false,
        };
        assert(r@ =~= set![Service::NoService]);
        r
    }
}

impl Encode for ServicesList {
    open spec fn encodable(&self) -> bool {
        true
    }

    open spec fn spec_encode(&self) -> Seq<u8> {
        services_bytes(*self)
    }

    fn net_encode(&self, w: &mut Vec<u8>) -> (n: usize) {
        write_le(w, self.mask(), 8);
        proof {
            lemma_le_bytes_len(self.spec_mask() as nat, 8);
        }
        8
    }
}

/// The encoding of a services list: its mask, as eight little-endian bytes.
pub open spec fn services_bytes(l: ServicesList) -> Seq<u8> {
    le_bytes(l.spec_mask() as nat, 8)
}

/// A list that holds only `Network` encodes to `01 00 00 00 00 00 00 00`.
pub proof fn lemma_network_only_bytes(l: ServicesList)
    requires
        l@ == set![Service::Network],
    ensures
        l.spec_encode() == seq![1u8, 0u8, 0u8, 0u8, 0u8, 0u8, 0u8, 0u8],
{
    assert(l@.contains(Service::Network));
    assert(!l@.contains(Service::GetUTXO));
    assert(!l@.contains(Service::Bloom));
    assert(!l@.contains(Service::Witness));
    assert(!l@.contains(Service::CompactFilters));
    assert(!l@.contains(Service::NetworkLimited));
    assert(l.spec_mask() == 1);
    reveal_with_fuel(le_bytes, 9);
    assert(l.spec_encode() =~= seq![1u8, 0u8, 0u8, 0u8, 0u8, 0u8, 0u8, 0u8]);
}

/// Reading a services mask: zero stands for `None` alone; a bit that names
/// no flag is invalid.
pub open spec fn decode_services(bytes: Seq<u8>) -> Decoded<ServicesList> {
    match decode_le(bytes, 8) {
        Err(e) => Decoded::Err(e),
        Ok((v, n)) => if v == 0 {
            Decoded::Ok((ServicesList::spec_default(), n))
        } else if ServicesList::from_bits(v as u64).spec_mask() != v {
            Decoded::Err(ErrorView::InvalidData)
        } else {
            Decoded::Ok((ServicesList::from_bits(v as u64), n))
        },
    }
}

impl Decode for ServicesList {
    open spec fn spec_decode(bytes: Seq<u8>) -> Decoded<Set<Service>> {
        match decode_services(bytes) {
            Ok((l, n)) => Decoded::Ok((l@, n)),
            Err(e) => Decoded::Err(e),
        }
    }

    fn net_decode(bytes: &[u8]) -> (res: Result<(ServicesList, usize), Error>) {
        if bytes.len() < 8 {
            return Err(Error::Io);
        }
        let v = read_le(bytes, 8);
        if v == 0 {
            return Ok((ServicesList::default(), 8));
        }
        let l = ServicesList {
            no_service: false,
            network: v % 2 == 1,
            get_utxo: (v / 2) % 2 == 1,
            bloom: (v / 4) % 2 == 1,
            witness: (v / 8) % 2 == 1,
            compact_filters: (v / 64) % 2 == 1,
            network_limited: (v / 1024) % 2 == 1,
        };
        if l.mask() != v {
            return Err(Error::InvalidData);
        }
        Ok((l, 8))
    }
}

/// A services list is determined by the set of its flags.
pub proof fn lemma_services_view_injective(a: ServicesList, b: ServicesList)
    requires
        a@ == b@,
    ensures
        a == b,
{
    assert(a@.contains(Service::NoService) == a.no_service);
    assert(b@.contains(Service::NoService) == b.no_service);
    assert(a@.contains(Service::Network) == a.network);
    assert(b@.contains(Service::Network) == b.network);
    assert(a@.contains(Service::GetUTXO) == a.get_utxo);
    assert(b@.contains(Service::GetUTXO) == b.get_utxo);
    assert(a@.contains(Service::Bloom) == a.bloom);
    assert(b@.contains(Service::Bloom) == b.bloom);
    assert(a@.contains(Service::Witness) == a.witness);
    assert(b@.contains(Service::Witness) == b.witness);
    assert(a@.contains(Service::CompactFilters) == a.compact_filters);
    assert(b@.contains(Service::CompactFilters) == b.compact_filters);
    assert(a@.contains(Service::NetworkLimited) == a.network_limited);
    assert(b@.contains(Service::NetworkLimited) == b.network_limited);
}

/// Reads a services mask, giving the list itself.
pub(crate) fn decode_services_exec(bytes: &[u8]) -> (res: Result<(ServicesList, usize), Error>)
    ensures
        match res {
            Ok((l, n)) => decode_services(bytes@) == Decoded::Ok((l, n as nat)),
            Err(e) => decode_services(bytes@) == Decoded::<ServicesList>::Err(e@),
        },
{
    let r = ServicesList::net_decode(bytes);
    match r {
        Ok((l, n)) => {
            proof {
                let d = decode_services(bytes@);
                lemma_services_view_injective(l, d->Ok_0.0);
            }
            Ok((l, n))
        },
        Err(e) => Err(e),
    }
}

/// A canonical services list decodes back from its encoding, whatever follows it.
pub proof fn lemma_services_round_trip(l: ServicesList, rest: Seq<u8>)
    requires
        l.canonical(),
    ensures
        decode_services(l.spec_encode() + rest) == Decoded::Ok((l, 8nat)),
{
    lemma_pow256_values();
    crate::encode::lemma_decode_le_round_trip(l.spec_mask() as nat, 8, rest);
    let m = l.spec_mask();
    let n0: u64 = if l.network { 1 } else { 0 };
    let n1: u64 = if l.get_utxo { 1 } else { 0 };
    let n2: u64 = if l.bloom { 1 } else { 0 };
    let n3: u64 = if l.witness { 1 } else { 0 };
    let n4: u64 = if l.compact_filters { 1 } else { 0 };
    let n5: u64 = if l.network_limited { 1 } else { 0 };
    assert(m == n0 + 2 * n1 + 4 * n2 + 8 * n3 + 64 * n4 + 1024 * n5);
    lemma_mask_bits(n0, n1, n2, n3, n4, n5);
    assert(decode_le(l.spec_encode() + rest, 8) == Decoded::Ok((m as nat, 8nat)));
    if l.no_service {
        assert(m == 0);
    } else {
        assert(m != 0);
        assert(ServicesList::from_bits(m) == l);
        assert(l.spec_mask() == m);
    }
}

/// The bits of a sum of distinct flag values are the flags.
proof fn lemma_mask_bits(n0: u64, n1: u64, n2: u64, n3: u64, n4: u64, n5: u64)
    requires
        n0 <= 1,
        n1 <= 1,
        n2 <= 1,
        n3 <= 1,
        n4 <= 1,
        n5 <= 1,
    ensures
        (n0 + 2 * n1 + 4 * n2 + 8 * n3 + 64 * n4 + 1024 * n5) % 2 == n0,
        ((n0 + 2 * n1 + 4 * n2 + 8 * n3 + 64 * n4 + 1024 * n5) / 2) % 2 == n1,
        ((n0 + 2 * n1 + 4 * n2 + 8 * n3 + 64 * n4 + 1024 * n5) / 4) % 2 == n2,
        ((n0 + 2 * n1 + 4 * n2 + 8 * n3 + 64 * n4 + 1024 * n5) / 8) % 2 == n3,
        ((n0 + 2 * n1 + 4 * n2 + 8 * n3 + 64 * n4 + 1024 * n5) / 64) % 2 == n4,
        ((n0 + 2 * n1 + 4 * n2 + 8 * n3 + 64 * n4 + 1024 * n5) / 1024) % 2 == n5,
{
}

/// An IP address. Version 4 addresses travel in their IPv6-mapped form.
#[derive(Debug, Clone, Copy, PartialEq, Eq)]
pub enum IpAddress {
    V4([u8; 4]),
    V6([u8; 16]),
}

/// The first twelve bytes of an IPv6-mapped IPv4 address (`::ffff:a.b.c.d`).
pub open spec fn mapped_prefix() -> Seq<u8> {
    zeros(10) + seq![0xFFu8, 0xFFu8]
}

/// The sixteen bytes of an address.
pub open spec fn ip_bytes(ip: IpAddress) -> Seq<u8> {
    match ip {
        IpAddress::V4(a) => mapped_prefix() + a@,
        IpAddress::V6(b) => b@,
    }
}

/// The address held in sixteen bytes: IPv4 where the mapping prefix is
/// there, else IPv6.
pub open spec fn ip_of(q: Seq<u8>) -> IpAddress {
    if q.take(12) == mapped_prefix() {
        IpAddress::V4(array_of::<4>(q.skip(12)))
    } else {
        IpAddress::V6(array_of::<16>(q))
    }
}

/// An address that reads back as itself: an IPv6 one is not in mapped form.
pub open spec fn ip_wf(ip: IpAddress) -> bool {
    ip is V6 ==> ip->V6_0@.take(12) != mapped_prefix()
}

/// An IP address and a port.
#[derive(Debug, Clone, Copy, PartialEq, Eq)]
pub struct Address {
    pub ip: IpAddress,
    pub port: u16,
}

impl View for Address {
    type V = Address;

    open spec fn view(&self) -> Address {
        *self
    }
}

impl Address {
    /// The unspecified address `0.0.0.0`, port 0: this machine.
    pub fn me() -> (r: Address)
        ensures
            r.ip is V4 && r.ip->V4_0@ == seq![0u8, 0u8, 0u8, 0u8],
            r.port == 0,
    {
        Address { ip: IpAddress::V4([0u8; 4]), port: 0 }
    }

    pub fn ip(&self) -> (r: IpAddress)
        ensures
            r == self.ip,
    {
        self.ip
    }

    pub fn port(&self) -> (r: u16)
        ensures
            r == self.port,
    {
        self.port
    }
}

impl Encode for Address {
    open spec fn encodable(&self) -> bool {
        true
    }

    open spec fn spec_encode(&self) -> Seq<u8> {
        address_bytes(*self)
    }

    fn net_encode(&self, w: &mut Vec<u8>) -> (n: usize) {
        let ghost start = w@;
        match &self.ip {
            IpAddress::V4(a) => {
                let mut i: usize = 0;
                while i < 10
                    invariant
                        i <= 10,
                        w@ == start + zeros(i as nat),
                    decreases 10 - i,
                {
                    assert(zeros((i + 1) as nat) =~= zeros(i as nat).push(0u8));
                    w.push(0);
                    i = i + 1;
                }
                w.push(0xFF);
                w.push(0xFF);
                a.net_encode(w);
                assert(w@ =~= start + ip_bytes(self.ip));
            },
            IpAddress::V6(b) => {
                b.net_encode(w);
            },
        }
        w.push((self.port / 256) as u8);
        w.push((self.port % 256) as u8);
        assert(w@ =~= start + self.spec_encode());
        18
    }
}

/// The encoding of an address: sixteen address bytes, then the port, most
/// significant byte first.
pub open spec fn address_bytes(a: Address) -> Seq<u8> {
    ip_bytes(a.ip) + seq![(a.port / 256) as u8, (a.port % 256) as u8]
}

/// Reading an address: sixteen address bytes and a big-endian port.
pub open spec fn decode_address(b: Seq<u8>) -> Decoded<Address> {
    if b.len() < 18 {
        Decoded::Err(ErrorView::Io)
    } else {
        Decoded::Ok(
            (Address { ip: ip_of(b.take(16)), port: (b[16] as nat * 256 + b[17] as nat) as u16 }, 18),
        )
    }
}

impl Decode for Address {
    open spec fn spec_decode(bytes: Seq<u8>) -> Decoded<Address> {
        decode_address(bytes)
    }

    fn net_decode(bytes: &[u8]) -> (res: Result<(Address, usize), Error>) {
        if bytes.len() < 18 {
            return Err(Error::Io);
        }
        let ghost q = bytes@.take(16);
        let mapped = bytes[0] == 0 && bytes[1] == 0 && bytes[2] == 0 && bytes[3] == 0 && bytes[4]
            == 0 && bytes[5] == 0 && bytes[6] == 0 && bytes[7] == 0 && bytes[8] == 0 && bytes[9]
            == 0 && bytes[10] == 0xFF && bytes[11] == 0xFF;
        proof {
            if mapped {
                assert(q.take(12) =~= mapped_prefix());
            } else {
                assert(q.take(12) != mapped_prefix() ) by {
                    if q.take(12) == mapped_prefix() {
                        assert(q.take(12)[0] == mapped_prefix()[0]);
                        assert(q.take(12)[1] == mapped_prefix()[1]);
                        assert(q.take(12)[2] == mapped_prefix()[2]);
                        assert(q.take(12)[3] == mapped_prefix()[3]);
                        assert(q.take(12)[4] == mapped_prefix()[4]);
                        assert(q.take(12)[5] == mapped_prefix()[5]);
                        assert(q.take(12)[6] == mapped_prefix()[6]);
                        assert(q.take(12)[7] == mapped_prefix()[7]);
                        assert(q.take(12)[8] == mapped_prefix()[8]);
                        assert(q.take(12)[9] == mapped_prefix()[9]);
                        assert(q.take(12)[10] == mapped_prefix()[10]);
                        assert(q.take(12)[11] == mapped_prefix()[11]);
                    }
                }
            }
        }
        let ip = if mapped {
            let a: [u8; 4] = [bytes[12], bytes[13], bytes[14], bytes[15]];
            proof {
                assert(a@ =~= q.skip(12));
                lemma_array_of(a);
            }
            IpAddress::V4(a)
        } else {
            let a: [u8; 16] = [
                bytes[0],
                bytes[1],
                bytes[2],
                bytes[3],
                bytes[4],
                bytes[5],
                bytes[6],
                bytes[7],
                bytes[8],
                bytes[9],
                bytes[10],
                bytes[11],
                bytes[12],
                bytes[13],
                bytes[14],
                bytes[15],
            ];
            proof {
                assert(a@ =~= q);
                lemma_array_of(a);
            }
            IpAddress::V6(a)
        };
        let port: u16 = (bytes[16] as u16) * 256 + (bytes[17] as u16);
        Ok((Address { ip, port }, 18))
    }
}

/// An address decodes back from its encoding, whatever follows it.
pub proof fn lemma_address_round_trip(a: Address, rest: Seq<u8>)
    requires
        ip_wf(a.ip),
    ensures
        decode_address(a.spec_encode() + rest) == Decoded::Ok((a, 18nat)),
{
    let b = a.spec_encode() + rest;
    let q = b.take(16);
    assert(q =~= ip_bytes(a.ip));
    match a.ip {
        IpAddress::V4(x) => {
            assert(q.take(12) =~= mapped_prefix());
            assert(q.skip(12) =~= x@);
            lemma_array_of(x);
        },
        IpAddress::V6(x) => {
            lemma_array_of(x);
        },
    }
    assert(b[16] == (a.port / 256) as u8);
    assert(b[17] == (a.port % 256) as u8);
}

/// A peer endpoint with the services it offers.
#[derive(Debug, Clone, Copy, PartialEq, Eq)]
pub struct NetAddress {
    pub services: ServicesList,
    pub address: Address,
}

impl View for NetAddress {
    type V = NetAddress;

    open spec fn view(&self) -> NetAddress {
        *self
    }
}

impl NetAddress {
    pub fn new(services: ServicesList, address: Address) -> (r: NetAddress)
        ensures
            r.services == services,
            r.address == address,
    {
        NetAddress { services, address }
    }

    /// A network address that reads back as itself.
    pub open spec fn wf(self) -> bool {
        self.services.canonical() && ip_wf(self.address.ip)
    }
}

/// This machine, offering no services.
impl Default for NetAddress {
    fn default() -> (r: NetAddress)
        ensures
            r.services == ServicesList::spec_default(),
            r.address.ip is V4 && r.address.ip->V4_0@ == seq![0u8, 0u8, 0u8, 0u8],
            r.address.port == 0,
    {
        NetAddress { services: ServicesList::default(), address: Address::me() }
    }
}

impl Encode for NetAddress {
    open spec fn encodable(&self) -> bool {
        true
    }

    open spec fn spec_encode(&self) -> Seq<u8> {
        net_address_bytes(*self)
    }

    fn net_encode(&self, w: &mut Vec<u8>) -> (n: usize) {
        let ghost start = w@;
        self.services.net_encode(w);
        self.address.net_encode(w);
        proof {
            lemma_le_bytes_len(self.services.spec_mask() as nat, 8);
            assert(w@ =~= start + self.spec_encode());
        }
        26
    }
}

/// The encoding of a network address: its services, then its address.
pub open spec fn net_address_bytes(a: NetAddress) -> Seq<u8> {
    services_bytes(a.services) + address_bytes(a.address)
}

/// Reading a network address: services, then the address.
pub open spec fn decode_net_address(b: Seq<u8>) -> Decoded<NetAddress> {
    match decode_services(b) {
        Err(e) => Decoded::Err(e),
        Ok((s, _)) => match decode_address(b.skip(8)) {
            Err(e) => Decoded::Err(e),
            Ok((a, _)) => Decoded::Ok((NetAddress { services: s, address: a }, 26)),
        },
    }
}

impl Decode for NetAddress {
    open spec fn spec_decode(bytes: Seq<u8>) -> Decoded<NetAddress> {
        decode_net_address(bytes)
    }

    fn net_decode(bytes: &[u8]) -> (res: Result<(NetAddress, usize), Error>) {
        let services = match decode_services_exec(bytes) {
            Ok((s, _)) => s,
            Err(e) => return Err(e),
        };
        let rest = &bytes[8..bytes.len()];
        assert(rest@ =~= bytes@.skip(8));
        let address = match Address::net_decode(rest) {
            Ok((a, _)) => a,
            Err(e) => return Err(e),
        };
        Ok((NetAddress { services, address }, 26))
    }
}

/// A well-formed network address decodes back from its encoding, whatever
/// follows it.
pub proof fn lemma_net_address_round_trip(a: NetAddress, rest: Seq<u8>)
    requires
        a.wf(),
    ensures
        decode_net_address(a.spec_encode() + rest) == Decoded::Ok((a, 26nat)),
{
    let b = a.spec_encode() + rest;
    lemma_le_bytes_len(a.services.spec_mask() as nat, 8);
    assert(b =~= a.services.spec_encode() + (a.address.spec_encode() + rest));
    lemma_services_round_trip(a.services, a.address.spec_encode() + rest);
    assert(b.skip(8) =~= a.address.spec_encode() + rest);
    lemma_address_round_trip(a.address, rest);
}

/// A network address with the time it was last seen, in seconds since the
/// Unix epoch.
#[derive(Debug, Clone, Copy, PartialEq, Eq)]
pub struct TimestampedNetAddress {
    pub timestamp: u32,
    pub netaddress: NetAddress,
}

impl View for TimestampedNetAddress {
    type V = TimestampedNetAddress;

    open spec fn view(&self) -> TimestampedNetAddress {
        *self
    }
}

impl TimestampedNetAddress {
    pub fn new(timestamp: u32, netaddress: NetAddress) -> (r: TimestampedNetAddress)
        ensures
            r.timestamp == timestamp,
            r.netaddress == netaddress,
    {
        TimestampedNetAddress { timestamp, netaddress }
    }
}

impl Encode for TimestampedNetAddress {
    open spec fn encodable(&self) -> bool {
        true
    }

    open spec fn spec_encode(&self) -> Seq<u8> {
        timestamped_bytes(*self)
    }

    fn net_encode(&self, w: &mut Vec<u8>) -> (n: usize) {
        let ghost start = w@;
        self.timestamp.net_encode(w);
        self.netaddress.net_encode(w);
        proof {
            lemma_le_bytes_len(self.timestamp as nat, 4);
            lemma_le_bytes_len(self.netaddress.services.spec_mask() as nat, 8);
            assert(w@ =~= start + self.spec_encode());
        }
        30
    }
}

/// The encoding of a timestamped network address: the time as four
/// little-endian bytes, then the network address.
pub open spec fn timestamped_bytes(a: TimestampedNetAddress) -> Seq<u8> {
    le_bytes(a.timestamp as nat, 4) + net_address_bytes(a.netaddress)
}

/// The network address, without its time.
impl From<TimestampedNetAddress> for NetAddress {
    fn from(tsna: TimestampedNetAddress) -> (r: NetAddress) {
        tsna.netaddress
    }
}

impl vstd::std_specs::convert::FromSpecImpl<TimestampedNetAddress> for NetAddress {
    open spec fn obeys_from_spec() -> bool {
        true
    }

    open spec fn from_spec(tsna: TimestampedNetAddress) -> NetAddress {
        tsna.netaddress
    }
}

/// Reading a timestamped network address: a 32-bit time, then the address.
pub open spec fn decode_timestamped(b: Seq<u8>) -> Decoded<TimestampedNetAddress> {
    match decode_le(b, 4) {
        Err(e) => Decoded::Err(e),
        Ok((t, _)) => match decode_net_address(b.skip(4)) {
            Err(e) => Decoded::Err(e),
            Ok((a, _)) => Decoded::Ok((TimestampedNetAddress { timestamp: t as u32, netaddress: a }, 30)),
        },
    }
}

impl Decode for TimestampedNetAddress {
    open spec fn spec_decode(bytes: Seq<u8>) -> Decoded<TimestampedNetAddress> {
        decode_timestamped(bytes)
    }

    fn net_decode(bytes: &[u8]) -> (res: Result<(TimestampedNetAddress, usize), Error>) {
        let timestamp = match u32::net_decode(bytes) {
            Ok((t, _)) => t,
            Err(e) => return Err(e),
        };
        proof {
            lemma_pow256_values();
            lemma_le_value_bound(bytes@.take(4));
        }
        let rest = &bytes[4..bytes.len()];
        assert(rest@ =~= bytes@.skip(4));
        let netaddress = match NetAddress::net_decode(rest) {
            Ok((a, _)) => a,
            Err(e) => return Err(e),
        };
        Ok((TimestampedNetAddress { timestamp, netaddress }, 30))
    }
}

/// A timestamped network address decodes back from its encoding, whatever
/// follows it.
pub proof fn lemma_timestamped_round_trip(a: TimestampedNetAddress, rest: Seq<u8>)
    requires
        a.netaddress.wf(),
    ensures
        decode_timestamped(a.spec_encode() + rest) == Decoded::Ok((a, 30nat)),
{
    lemma_pow256_values();
    let b = a.spec_encode() + rest;
    assert(b =~= le_bytes(a.timestamp as nat, 4) + (a.netaddress.spec_encode() + rest));
    crate::encode::lemma_decode_le_round_trip(a.timestamp as nat, 4, a.netaddress.spec_encode() + rest);
    crate::encode::lemma_le_bytes_len(a.timestamp as nat, 4);
    assert(b.skip(4) =~= a.netaddress.spec_encode() + rest);
    lemma_net_address_round_trip(a.netaddress, rest);
}

} // verus!
