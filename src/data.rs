//! Whole messages: a header, and a payload whose shape the header's command
//! decides.

use vstd::prelude::*;
use vstd::utf8::encode_utf8;

use crate::encode::{
    Decode, Decoded, Encode, Error, ErrorView, decode_le, le_bytes, lemma_le_bytes_len,
    lemma_pow256_values, lemma_slice_len_bound, tail,
};
use crate::header::{
    Command, CommandView, Magic, MessageHeader, MessageHeaderView, checksum_of,
    command_wf, decode_header, header_bytes, lemma_header_len, lemma_header_round_trip,
    lemma_known_command_wf, name_bytes, payload_checksum,
};
use crate::inventory::{Inventory, decode_inventory, inventory_bytes, lemma_inventory_round_trip};
use crate::network::{
    Address, TimestampedNetAddress, decode_timestamped, ip_wf, lemma_timestamped_round_trip,
    timestamped_bytes,
};
use crate::varint::{VariableInteger, decode_varint, lemma_varint_round_trip, varint_bytes};
use crate::version::{
    VersionMessage, VersionMessageView, decode_version, lemma_version_round_trip, version_bytes,
};

verus! {

/// The most addresses that one `addr` message may carry.
pub const MAX_ADDRS: u64 = 100;

/// The encodings `enc` of the items of `s`, one after another.
pub open spec fn encode_all<T>(s: Seq<T>, enc: spec_fn(T) -> Seq<u8>) -> Seq<u8>
    decreases s.len(),
{
    if s.len() == 0 {
        Seq::empty()
    } else {
        encode_all(s.drop_last(), enc) + enc(s.last())
    }
}

/// How an item of type `T` encodes.
pub open spec fn item_encoding<T: Encode>() -> spec_fn(T) -> Seq<u8> {
    |x: T| x.spec_encode()
}

/// Appends the items of a list one after another (a count, where the format
/// has one, is written by the payload that holds the list).
pub fn encode_items<T: Encode>(items: &Vec<T>, w: &mut Vec<u8>) -> (n: usize)
    requires
        forall|i: int| 0 <= i < items@.len() ==> #[trigger] items@[i].encodable(),
    ensures
        final(w)@ == old(w)@ + encode_all(items@, item_encoding::<T>()),
        n == encode_all(items@, item_encoding::<T>()).len(),
{
    let ghost start = w@;
    let start_len = w.len();
    let mut i: usize = 0;
    while i < items.len()
        invariant
            i <= items@.len(),
            forall|j: int| 0 <= j < items@.len() ==> #[trigger] items@[j].encodable(),
            w@ == start + encode_all(items@.take(i as int), item_encoding::<T>()),
        decreases items@.len() - i,
    {
        items[i].net_encode(w);
        proof {
            let s = items@.take(i + 1);
            assert(s.drop_last() =~= items@.take(i as int));
            assert(w@ =~= start + encode_all(s, item_encoding::<T>()));
        }
        i = i + 1;
    }
    assert(items@.take(items@.len() as int) =~= items@);
    w.len() - start_len
}

/// Reading `count` items with `dec`, one after another.
pub open spec fn decode_items<V>(b: Seq<u8>, count: nat, dec: spec_fn(Seq<u8>) -> Decoded<V>) -> Decoded<
    Seq<V>,
>
    decreases count,
{
    if count == 0 {
        Decoded::Ok((Seq::empty(), 0))
    } else {
        match decode_items(b, (count - 1) as nat, dec) {
            Err(e) => Decoded::Err(e),
            Ok((items, n)) => match dec(b.skip(n as int)) {
                Err(e) => Decoded::Err(e),
                Ok((x, m)) => Decoded::Ok((items.push(x), n + m)),
            },
        }
    }
}

/// How an item of type `T` decodes.
pub open spec fn item_decoding<T: Decode>() -> spec_fn(Seq<u8>) -> Decoded<T::V> {
    |b: Seq<u8>| T::spec_decode(b)
}

/// Once reading the first items fails, reading more fails the same way.
proof fn lemma_items_err<V>(b: Seq<u8>, i: nat, j: nat, dec: spec_fn(Seq<u8>) -> Decoded<V>)
    requires
        i <= j,
        decode_items(b, i, dec) is Err,
    ensures
        decode_items(b, j, dec) == decode_items(b, i, dec),
    decreases j - i,
{
    if i < j {
        lemma_items_err(b, i, (j - 1) as nat, dec);
    }
}

/// Reads `count` items from the start of `bytes`.
fn decode_items_exec<T: Decode>(bytes: &[u8], count: u64) -> (res: Result<(Vec<T>, usize), Error>)
    ensures
        match res {
            Ok((v, n)) => decode_items(bytes@, count as nat, item_decoding::<T>()) == Decoded::Ok(
                (v@.map_values(|x: T| x@), n as nat),
            ) && n <= bytes@.len(),
            Err(e) => decode_items(bytes@, count as nat, item_decoding::<T>()) == Decoded::<Seq<T::V>>::Err(e@),
        },
{
    proof {
        lemma_slice_len_bound(bytes);
    }
    let mut items: Vec<T> = Vec::new();
    let mut n: usize = 0;
    let mut i: u64 = 0;
    assert(items@.map_values(|x: T| x@) =~= Seq::<T::V>::empty());
    while i < count
        invariant
            i <= count,
            n <= bytes@.len(),
            bytes@.len() <= usize::MAX,
            decode_items(bytes@, i as nat, item_decoding::<T>()) == Decoded::Ok(
                (items@.map_values(|x: T| x@), n as nat),
            ),
        decreases count - i,
    {
        match T::net_decode(tail(bytes, n)) {
            Ok((x, m)) => {
                let ghost xv = x@;
                let ghost before = items@;
                items.push(x);
                proof {
                    assert(items@.map_values(|x: T| x@) =~= before.map_values(|x: T| x@).push(xv));
                }
                n = n + m;
            },
            Err(e) => {
                proof {
                    lemma_items_err(bytes@, (i + 1) as nat, count as nat, item_decoding::<T>());
                }
                return Err(e);
            },
        }
        i = i + 1;
    }
    Ok((items, n))
}

/// The body of a message, by kind.
#[derive(Debug, Clone, PartialEq, Eq)]
pub enum MessagePayload {
    Version(VersionMessage),
    /// The nonce of a `ping` or `pong`.
    PingPong(u64),
    AddrList(Vec<TimestampedNetAddress>),
    InvVect(Vec<Inventory>),
    /// The payload of the commands that carry none.
    EmptyPayload,
    /// The raw bytes of a payload whose shape is not known.
    Dump(Vec<u8>),
}

/// The mathematical model of a [`MessagePayload`].
pub enum MessagePayloadView {
    Version(VersionMessageView),
    PingPong(u64),
    AddrList(Seq<TimestampedNetAddress>),
    InvVect(Seq<Inventory>),
    EmptyPayload,
    Dump(Seq<u8>),
}

impl View for MessagePayload {
    type V = MessagePayloadView;

    open spec fn view(&self) -> MessagePayloadView {
        match self {
            MessagePayload::Version(v) => MessagePayloadView::Version(v@),
            MessagePayload::PingPong(n) => MessagePayloadView::PingPong(*n),
            MessagePayload::AddrList(a) => MessagePayloadView::AddrList(a@),
            MessagePayload::InvVect(i) => MessagePayloadView::InvVect(i@),
            MessagePayload::EmptyPayload => MessagePayloadView::EmptyPayload,
            MessagePayload::Dump(d) => MessagePayloadView::Dump(d@),
        }
    }
}

/// The encoding of a payload; lists are written with their count first.
pub open spec fn payload_bytes(p: MessagePayloadView) -> Seq<u8> {
    match p {
        MessagePayloadView::Version(v) => version_bytes(v),
        MessagePayloadView::PingPong(n) => le_bytes(n as nat, 8),
        MessagePayloadView::AddrList(a) => varint_bytes(a.len() as u64) + encode_all(
            a,
            |x: TimestampedNetAddress| timestamped_bytes(x),
        ),
        MessagePayloadView::InvVect(i) => varint_bytes(i.len() as u64) + encode_all(
            i,
            |x: Inventory| inventory_bytes(x),
        ),
        MessagePayloadView::EmptyPayload => Seq::empty(),
        MessagePayloadView::Dump(d) => d,
    }
}

impl Encode for MessagePayload {
    open spec fn encodable(&self) -> bool {
        true
    }

    open spec fn spec_encode(&self) -> Seq<u8> {
        payload_bytes(self@)
    }

    fn net_encode(&self, w: &mut Vec<u8>) -> (n: usize) {
        let ghost start = w@;
        let start_len = w.len();
        match self {
            MessagePayload::Version(v) => {
                v.net_encode(w);
            },
            MessagePayload::PingPong(x) => {
                x.net_encode(w);
            },
            MessagePayload::AddrList(a) => {
                VariableInteger(a.len() as u64).net_encode(w);
                encode_items(a, w);
                assert(item_encoding::<TimestampedNetAddress>() =~= (|x: TimestampedNetAddress|
                    timestamped_bytes(x)));
                assert(w@ =~= start + self.spec_encode());
            },
            MessagePayload::InvVect(i) => {
                VariableInteger(i.len() as u64).net_encode(w);
                encode_items(i, w);
                assert(item_encoding::<Inventory>() =~= (|x: Inventory| inventory_bytes(x)));
                assert(w@ =~= start + self.spec_encode());
            },
            MessagePayload::EmptyPayload => {
                assert(w@ =~= start + self.spec_encode());
            },
            MessagePayload::Dump(d) => {
                let mut i: usize = 0;
                while i < d.len()
                    invariant
                        i <= d@.len(),
                        w@ == start + d@.take(i as int),
                    decreases d@.len() - i,
                {
                    assert(d@.take(i + 1) =~= d@.take(i as int).push(d@[i as int]));
                    w.push(d[i]);
                    i = i + 1;
                }
                assert(d@.take(d@.len() as int) =~= d@);
            },
        }
        w.len() - start_len
    }
}

/// Reading a payload, in the shape that the command gives it. The commands
/// with no payload need a declared length of zero; an `addr` list may hold at
/// most 100 entries; a payload of unknown shape is kept as the declared
/// number of raw bytes.
pub open spec fn decode_payload(command: CommandView, length: u32, b: Seq<u8>) -> Decoded<
    MessagePayloadView,
> {
    match command {
        CommandView::Version => match decode_version(b) {
            Err(e) => Decoded::Err(e),
            Ok((v, n)) => Decoded::Ok((MessagePayloadView::Version(v), n)),
        },
        CommandView::Verack | CommandView::SendHeaders | CommandView::WTxIdRelay
        | CommandView::GetAddr => if length == 0 {
            Decoded::Ok((MessagePayloadView::EmptyPayload, 0))
        } else {
            Decoded::Err(ErrorView::InvalidData)
        },
        CommandView::Ping | CommandView::Pong => match decode_le(b, 8) {
            Err(e) => Decoded::Err(e),
            Ok((x, n)) => Decoded::Ok((MessagePayloadView::PingPong(x as u64), n)),
        },
        CommandView::Addr => match decode_varint(b) {
            Err(e) => Decoded::Err(e),
            Ok((count, k)) => if count > MAX_ADDRS {
                Decoded::Err(ErrorView::InvalidData)
            } else {
                match decode_items(b.skip(k as int), count as nat, |q: Seq<u8>| decode_timestamped(q)) {
                    Err(e) => Decoded::Err(e),
                    Ok((items, n)) => Decoded::Ok((MessagePayloadView::AddrList(items), k + n)),
                }
            },
        },
        CommandView::Inv => match decode_varint(b) {
            Err(e) => Decoded::Err(e),
            Ok((count, k)) => match decode_items(
                b.skip(k as int),
                count as nat,
                |q: Seq<u8>| decode_inventory(q),
            ) {
                Err(e) => Decoded::Err(e),
                Ok((items, n)) => Decoded::Ok((MessagePayloadView::InvVect(items), k + n)),
            },
        },
        _ => if b.len() < length {
            Decoded::Err(ErrorView::Io)
        } else {
            Decoded::Ok((MessagePayloadView::Dump(b.take(length as int)), length as nat))
        },
    }
}

impl MessagePayload {
    /// The length of the encoded payload.
    pub fn len(&self) -> (r: usize)
        ensures
            r == self.spec_encode().len(),
    {
        match self {
            MessagePayload::EmptyPayload => 0,
            MessagePayload::PingPong(x) => {
                proof {
                    lemma_le_bytes_len(*x as nat, 8);
                }
                8
            },
            _ => {
                let mut scratch: Vec<u8> = Vec::new();
                self.net_encode(&mut scratch)
            },
        }
    }

    /// Decodes the payload of a message whose header gave `command` and
    /// `length`.
    pub fn decode_for(command: &Command, length: u32, bytes: &[u8]) -> (res: Result<
        (MessagePayload, usize),
        Error,
    >)
        ensures
            match res {
                Ok((p, n)) => decode_payload(command@, length, bytes@) == Decoded::Ok(
                    (p@, n as nat),
                ) && n <= bytes@.len(),
                Err(e) => decode_payload(command@, length, bytes@)
                    == Decoded::<MessagePayloadView>::Err(e@),
            },
    {
        proof {
            lemma_slice_len_bound(bytes);
        }
        match command {
            Command::Version => match VersionMessage::net_decode(bytes) {
                Ok((v, n)) => Ok((MessagePayload::Version(v), n)),
                Err(e) => Err(e),
            },
            Command::Verack | Command::SendHeaders | Command::WTxIdRelay | Command::GetAddr => {
                if length == 0 {
                    Ok((MessagePayload::EmptyPayload, 0))
                } else {
                    Err(Error::InvalidData)
                }
            },
            Command::Ping | Command::Pong => match u64::net_decode(bytes) {
                Ok((x, n)) => Ok((MessagePayload::PingPong(x), n)),
                Err(e) => Err(e),
            },
            Command::Addr => {
                let (count, k) = match VariableInteger::net_decode(bytes) {
                    Ok((c, k)) => (c.0, k),
                    Err(e) => return Err(e),
                };
                if count > MAX_ADDRS {
                    return Err(Error::InvalidData);
                }
                assert(item_decoding::<TimestampedNetAddress>() =~= (|q: Seq<u8>| decode_timestamped(q)));
                match decode_items_exec::<TimestampedNetAddress>(tail(bytes, k), count) {
                    Ok((items, n)) => {
                        assert(items@.map_values(|x: TimestampedNetAddress| x@) =~= items@);
                        assert(item_decoding::<TimestampedNetAddress>() =~= (|q: Seq<u8>| decode_timestamped(q)));
                        Ok((MessagePayload::AddrList(items), k + n))
                    },
                    Err(e) => Err(e),
                }
            },
            Command::Inv => {
                let (count, k) = match VariableInteger::net_decode(bytes) {
                    Ok((c, k)) => (c.0, k),
                    Err(e) => return Err(e),
                };
                assert(item_decoding::<Inventory>() =~= (|q: Seq<u8>| decode_inventory(q)));
                match decode_items_exec::<Inventory>(tail(bytes, k), count) {
                    Ok((items, n)) => {
                        assert(items@.map_values(|x: Inventory| x@) =~= items@);
                        assert(item_decoding::<Inventory>() =~= (|q: Seq<u8>| decode_inventory(q)));
                        Ok((MessagePayload::InvVect(items), k + n))
                    },
                    Err(e) => Err(e),
                }
            },
            _ => {
                if bytes.len() < length as usize {
                    return Err(Error::Io);
                }
                let d = vstd::slice::slice_to_vec(&bytes[0..length as usize]);
                assert(d@ =~= bytes@.take(length as int));
                Ok((MessagePayload::Dump(d), length as usize))
            },
        }
    }
}

/// A payload that holds nothing.
#[derive(Debug, Clone, Copy, PartialEq, Eq)]
pub struct EmptyPayload;

impl Default for EmptyPayload {
    fn default() -> (r: EmptyPayload) {
        EmptyPayload
    }
}

impl View for EmptyPayload {
    type V = EmptyPayload;

    open spec fn view(&self) -> EmptyPayload {
        *self
    }
}

impl Encode for EmptyPayload {
    open spec fn encodable(&self) -> bool {
        true
    }

    open spec fn spec_encode(&self) -> Seq<u8> {
        Seq::empty()
    }

    fn net_encode(&self, w: &mut Vec<u8>) -> (n: usize) {
        assert(w@ =~= w@ + Seq::<u8>::empty());
        0
    }
}

impl Decode for EmptyPayload {
    open spec fn spec_decode(bytes: Seq<u8>) -> Decoded<EmptyPayload> {
        Decoded::Ok((EmptyPayload, 0))
    }

    fn net_decode(bytes: &[u8]) -> (res: Result<(EmptyPayload, usize), Error>) {
        Ok((EmptyPayload, 0))
    }
}

/// One complete message: a header, and the payload that it describes.
#[derive(Debug, Clone, PartialEq, Eq)]
pub struct Message {
    pub header: MessageHeader,
    pub payload: MessagePayload,
}

/// The mathematical model of a [`Message`].
pub struct MessageView {
    pub header: MessageHeaderView,
    pub payload: MessagePayloadView,
}

impl View for Message {
    type V = MessageView;

    open spec fn view(&self) -> MessageView {
        MessageView { header: self.header@, payload: self.payload@ }
    }
}

impl Message {
    /// A message whose header gives the payload's length and checksum.
    pub fn new(payload: MessagePayload, magic: Magic, command: Command) -> (r: Message)
        requires
            payload.spec_encode().len() <= u32::MAX,
        ensures
            r.header.magic == magic,
            r.header.command == command,
            r.header.length == payload.spec_encode().len(),
            r.header.checksum@ == checksum_of(payload.spec_encode()),
            r.payload == payload,
            payload is EmptyPayload ==> r.header.length == 0,
    {
        let mut bytes: Vec<u8> = Vec::new();
        let length = payload.net_encode(&mut bytes);
        assert(bytes@ =~= payload.spec_encode());
        let checksum = payload_checksum(bytes.as_slice());
        Message { header: MessageHeader::new(magic, command, length, checksum), payload }
    }
}

/// The encoding of a message: its header, then its payload.
pub open spec fn message_bytes(m: MessageView) -> Seq<u8> {
    header_bytes(m.header) + payload_bytes(m.payload)
}

impl Encode for Message {
    /// The command fits its field, and an empty payload is declared empty.
    open spec fn encodable(&self) -> bool {
        &&& name_bytes(self.header.command@).len() <= 12
        &&& self.payload is EmptyPayload ==> self.header.length == 0
    }

    open spec fn spec_encode(&self) -> Seq<u8> {
        message_bytes(self@)
    }

    fn net_encode(&self, w: &mut Vec<u8>) -> (n: usize) {
        let ghost start = w@;
        let start_len = w.len();
        self.header.net_encode(w);
        self.payload.net_encode(w);
        assert(w@ =~= start + self.spec_encode());
        w.len() - start_len
    }
}

/// Reading a message: the header first, then the payload that its command
/// and length describe.
pub open spec fn decode_message(b: Seq<u8>) -> Decoded<MessageView> {
    match decode_header(b) {
        Err(e) => Decoded::Err(e),
        Ok((h, k)) => match decode_payload(h.command, h.length, b.skip(k as int)) {
            Err(e) => Decoded::Err(e),
            Ok((p, n)) => Decoded::Ok((MessageView { header: h, payload: p }, k + n)),
        },
    }
}

impl Decode for Message {
    open spec fn spec_decode(bytes: Seq<u8>) -> Decoded<MessageView> {
        decode_message(bytes)
    }

    fn net_decode(bytes: &[u8]) -> (res: Result<(Message, usize), Error>) {
        proof {
            lemma_slice_len_bound(bytes);
        }
        let (header, k) = match MessageHeader::net_decode(bytes) {
            Ok(x) => x,
            Err(e) => return Err(e),
        };
        let (payload, n) = match MessagePayload::decode_for(
            &header.command,
            header.length,
            tail(bytes, k),
        ) {
            Ok(x) => x,
            Err(e) => return Err(e),
        };
        Ok((Message { header, payload }, k + n))
    }
}

/// Items that each decode back from their encoding read back as the list,
/// whatever follows them.
pub proof fn lemma_items_round_trip<T>(
    a: Seq<T>,
    rest: Seq<u8>,
    enc: spec_fn(T) -> Seq<u8>,
    dec: spec_fn(Seq<u8>) -> Decoded<T>,
)
    requires
        forall|i: int, r: Seq<u8>|
            0 <= i < a.len() ==> #[trigger] dec(enc(a[i]) + r) == Decoded::Ok(
                (a[i], enc(a[i]).len()),
            ),
    ensures
        decode_items(encode_all(a, enc) + rest, a.len(), dec) == Decoded::Ok(
            (a, encode_all(a, enc).len()),
        ),
    decreases a.len(),
{
    if a.len() > 0 {
        let init = a.drop_last();
        let x = a.last();
        let tail_bytes = enc(x) + rest;
        assert forall|i: int, r: Seq<u8>| 0 <= i < init.len() implies #[trigger] dec(
            enc(init[i]) + r,
        ) == Decoded::Ok((init[i], enc(init[i]).len())) by {
            assert(init[i] == a[i]);
        }
        lemma_items_round_trip(init, tail_bytes, enc, dec);
        let b = encode_all(a, enc) + rest;
        assert(b =~= encode_all(init, enc) + tail_bytes);
        assert(b.skip(encode_all(init, enc).len() as int) =~= tail_bytes);
        assert(dec(enc(a[a.len() - 1]) + rest) == Decoded::Ok((x, enc(x).len())));
        assert(init.push(x) =~= a);
        assert(encode_all(a, enc) == encode_all(init, enc) + enc(x));
        assert(decode_items(b, init.len(), dec) == Decoded::Ok((init, encode_all(init, enc).len())));
        assert(decode_items(b, a.len(), dec) == Decoded::Ok(
            (init.push(x), encode_all(init, enc).len() + enc(x).len()),
        ));
    } else {
        assert(a =~= Seq::<T>::empty());
    }
}

/// Whether a message's payload has the shape that its command gives, and
/// decodes back: the payload the command reads, a declared length of zero
/// for the commands without payload, at most 100 addresses, and the declared
/// length for raw payloads.
pub open spec fn payload_fits(m: Message) -> bool {
    match m.header.command@ {
        CommandView::Version => match m.payload {
            MessagePayload::Version(v) => {
                &&& v.service.canonical()
                &&& v.addr_recv.wf()
                &&& v.addr_from.wf()
                &&& encode_utf8(v.agent@).len() <= usize::MAX
            },
            _ => false,
        },
        CommandView::Verack | CommandView::SendHeaders | CommandView::WTxIdRelay
        | CommandView::GetAddr => m.payload is EmptyPayload && m.header.length == 0,
        CommandView::Ping | CommandView::Pong => m.payload is PingPong,
        CommandView::Addr => match m.payload {
            MessagePayload::AddrList(a) => a@.len() <= MAX_ADDRS && forall|i: int|
                0 <= i < a@.len() ==> (#[trigger] a@[i]).netaddress.wf(),
            _ => false,
        },
        CommandView::Inv => match m.payload {
            MessagePayload::InvVect(items) => items@.len() <= u64::MAX && forall|i: int|
                0 <= i < items@.len() ==> (#[trigger] items@[i]).wf(),
            _ => false,
        },
        _ => match m.payload {
            MessagePayload::Dump(d) => d@.len() == m.header.length,
            _ => false,
        },
    }
}

/// An address list of at most 100 well-formed entries decodes back as an
/// `addr` payload, whatever follows it.
proof fn lemma_addr_list_round_trip(a: Seq<TimestampedNetAddress>, length: u32, rest: Seq<u8>)
    requires
        a.len() <= MAX_ADDRS,
        forall|i: int| 0 <= i < a.len() ==> (#[trigger] a[i]).netaddress.wf(),
    ensures
        decode_payload(
            CommandView::Addr,
            length,
            payload_bytes(MessagePayloadView::AddrList(a)) + rest,
        ) == Decoded::Ok(
            (
                MessagePayloadView::AddrList(a),
                payload_bytes(MessagePayloadView::AddrList(a)).len(),
            ),
        ),
{
    let enc = |x: TimestampedNetAddress| timestamped_bytes(x);
    let dec = |q: Seq<u8>| decode_timestamped(q);
    let items = encode_all(a, enc);
    assert forall|i: int, r: Seq<u8>| 0 <= i < a.len() implies #[trigger] dec(enc(a[i]) + r)
        == Decoded::Ok((a[i], enc(a[i]).len())) by {
        lemma_timestamped_round_trip(a[i], r);
        lemma_le_bytes_len(a[i].timestamp as nat, 4);
        lemma_le_bytes_len(a[i].netaddress.services.spec_mask() as nat, 8);
    }
    lemma_items_round_trip(a, rest, enc, dec);
    let v = a.len() as u64;
    let b = payload_bytes(MessagePayloadView::AddrList(a)) + rest;
    assert(b =~= varint_bytes(v) + (items + rest));
    lemma_varint_round_trip(v, items + rest);
    assert(b.skip(varint_bytes(v).len() as int) =~= items + rest);
}

/// A list of well-formed inventory items decodes back as an `inv` payload,
/// whatever follows it.
proof fn lemma_inv_list_round_trip(l: Seq<Inventory>, length: u32, rest: Seq<u8>)
    requires
        l.len() <= u64::MAX,
        forall|i: int| 0 <= i < l.len() ==> (#[trigger] l[i]).wf(),
    ensures
        decode_payload(CommandView::Inv, length, payload_bytes(MessagePayloadView::InvVect(l)) + rest)
            == Decoded::Ok(
            (
                MessagePayloadView::InvVect(l),
                payload_bytes(MessagePayloadView::InvVect(l)).len(),
            ),
        ),
{
    let enc = |x: Inventory| inventory_bytes(x);
    let dec = |q: Seq<u8>| decode_inventory(q);
    let items = encode_all(l, enc);
    assert forall|i: int, r: Seq<u8>| 0 <= i < l.len() implies #[trigger] dec(enc(l[i]) + r)
        == Decoded::Ok((l[i], enc(l[i]).len())) by {
        lemma_inventory_round_trip(l[i], r);
        lemma_le_bytes_len(l[i].spec_identifier() as nat, 4);
    }
    lemma_items_round_trip(l, rest, enc, dec);
    let v = l.len() as u64;
    let b = payload_bytes(MessagePayloadView::InvVect(l)) + rest;
    assert(b =~= varint_bytes(v) + (items + rest));
    lemma_varint_round_trip(v, items + rest);
    assert(b.skip(varint_bytes(v).len() as int) =~= items + rest);
}

/// A payload that fits its command decodes back under that command and the
/// declared length, whatever follows it.
pub proof fn lemma_payload_round_trip(m: Message, rest: Seq<u8>)
    requires
        payload_fits(m),
    ensures
        decode_payload(m.header.command@, m.header.length, m.payload.spec_encode() + rest)
            == Decoded::Ok((m.payload@, m.payload.spec_encode().len())),
{
    let b = m.payload.spec_encode() + rest;
    match m.payload {
        MessagePayload::Version(v) => {
            lemma_version_round_trip(v, rest);
        },
        MessagePayload::PingPong(x) => {
            lemma_pow256_values();
            crate::encode::lemma_decode_le_round_trip(x as nat, 8, rest);
            lemma_le_bytes_len(x as nat, 8);
        },
        MessagePayload::AddrList(a) => {
            lemma_addr_list_round_trip(a@, m.header.length, rest);
        },
        MessagePayload::InvVect(l) => {
            lemma_inv_list_round_trip(l@, m.header.length, rest);
        },
        MessagePayload::EmptyPayload => {},
        MessagePayload::Dump(x) => {
            assert(b.take(x@.len() as int) =~= x@);
        },
    }
}

/// A message whose network is known, whose command can be written, and whose
/// payload fits its command decodes back from its encoding, field for field,
/// whatever follows it.
pub proof fn lemma_message_round_trip(m: Message, rest: Seq<u8>)
    requires
        !(m.header.magic is Unknown),
        command_wf(m.header.command@),
        payload_fits(m),
    ensures
        decode_message(m.spec_encode() + rest) == Decoded::Ok((m@, m.spec_encode().len())),
{
    let p = m.payload.spec_encode();
    let b = m.spec_encode() + rest;
    assert(b =~= m.header.spec_encode() + (p + rest));
    lemma_header_round_trip(m.header, p + rest);
    lemma_header_len(m.header);
    assert(b.skip(24) =~= p + rest);
    lemma_payload_round_trip(m, rest);
}

/// The handshake that this node builds for a peer, sent as a `version`
/// message on a known network, decodes back to the same message.
pub proof fn lemma_handshake_round_trip(
    m: Message,
    rest: Seq<u8>,
    address: Address,
    timestamp: u64,
)
    requires
        !(m.header.magic is Unknown),
        m.header.command is Version,
        m.payload matches MessagePayload::Version(v) && v.is_handshake_for(address, timestamp),
        ip_wf(address.ip),
    ensures
        decode_message(m.spec_encode() + rest) == Decoded::Ok((m@, m.spec_encode().len())),
{
    broadcast use vstd::utf8::is_ascii_chars_encode_utf8;

    if let MessagePayload::Version(v) = m.payload {
        reveal_strlit("bit-tune-v0.0.1");
        assert(vstd::utf8::is_ascii_chars(v.agent@));
        assert(encode_utf8(v.agent@).len() == 15);
        assert(v.addr_from.address.ip->V4_0@ == seq![0u8, 0u8, 0u8, 0u8]);
    }
    lemma_known_command_wf(m.header.command@);
    lemma_message_round_trip(m, rest);
}

/// A message with a command that is not known decodes, whatever its declared
/// length, to the header and exactly that many raw payload bytes, so that
/// the next message starts right after them.
pub proof fn lemma_unknown_command_resilience(b: Seq<u8>)
    requires
        decode_header(b) is Ok,
        decode_header(b)->Ok_0.0.command is Unknown,
        b.len() >= 24 + decode_header(b)->Ok_0.0.length,
    ensures
        ({
            let h = decode_header(b)->Ok_0.0;
            decode_message(b) == Decoded::Ok(
                (
                    MessageView {
                        header: h,
                        payload: MessagePayloadView::Dump(b.subrange(24, 24 + h.length)),
                    },
                    24 + h.length as nat,
                ),
            )
        }),
{
    let h = decode_header(b)->Ok_0.0;
    assert(b.skip(24).take(h.length as int) =~= b.subrange(24, 24 + h.length));
}

/// An `addr` payload that declares more than 100 entries is refused before
/// any entry is read.
pub proof fn lemma_addr_cap(length: u32, b: Seq<u8>)
    requires
        decode_varint(b) is Ok,
        decode_varint(b)->Ok_0.0 > MAX_ADDRS,
    ensures
        decode_payload(CommandView::Addr, length, b) == Decoded::<MessagePayloadView>::Err(
            ErrorView::InvalidData,
        ),
{
}

/// A decoded message with an empty payload declares a length of zero.
pub proof fn lemma_decoded_empty_payload(b: Seq<u8>)
    requires
        decode_message(b) is Ok,
        decode_message(b)->Ok_0.0.payload is EmptyPayload,
    ensures
        decode_message(b)->Ok_0.0.header.length == 0,
{
}

} // verus!
