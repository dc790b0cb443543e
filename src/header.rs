//! Message headers: network magic, command names, the payload checksum and
//! the header record.

use vstd::prelude::*;
use vstd::utf8::{
    decode_utf8, encode_utf8, encode_utf8_decode_utf8, encode_utf8_valid_utf8, valid_utf8,
};

use crate::encode::{
    Decode, Decoded, Encode, Error, ErrorView, string_from_utf8, decode_le, le_bytes, le_value, lemma_le_bytes_len,
    lemma_le_value_bound, lemma_pow256_values, read_le, write_le,
};

verus! {

/// The magic of the main network, as a number (little-endian on the wire).
pub const MAIN_MAGIC: u32 = 0xD9B4BEF9;

/// The magic of the test network, as a number (little-endian on the wire).
pub const TEST_MAGIC: u32 = 0xDAB5BFFA;

/// The network a message belongs to.
#[derive(Debug, Clone, Copy, PartialEq, Eq, Structural)]
pub enum Magic {
    Main,
    Test,
    Unknown(u32),
}

impl View for Magic {
    type V = Magic;

    open spec fn view(&self) -> Magic {
        *self
    }
}

impl Magic {
    pub open spec fn spec_bytes(self) -> u32 {
        match self {
            Magic::Main => MAIN_MAGIC,
            Magic::Test => TEST_MAGIC,
            Magic::Unknown(v) => v,
        }
    }

    /// The network that a magic number names.
    pub open spec fn from_value(v: u32) -> Magic {
        if v == MAIN_MAGIC {
            Magic::Main
        } else if v == TEST_MAGIC {
            Magic::Test
        } else {
            Magic::Unknown(v)
        }
    }

    /// The magic number of the network.
    pub fn bytes(&self) -> (r: u32)
        ensures
            r == self.spec_bytes(),
    {
        match self {
            Magic::Main => MAIN_MAGIC,
            Magic::Test => TEST_MAGIC,
            Magic::Unknown(v) => *v,
        }
    }

    fn of_value(v: u32) -> (r: Magic)
        ensures
            r == Magic::from_value(v),
    {
        if v == MAIN_MAGIC {
            Magic::Main
        } else if v == TEST_MAGIC {
            Magic::Test
        } else {
            Magic::Unknown(v)
        }
    }
}

/// Reads the magic number from four bytes, most significant first.
impl From<[u8; 4]> for Magic {
    fn from(b: [u8; 4]) -> (r: Magic) {
        let v: u32 = (b[0] as u32) * 0x100_0000 + (b[1] as u32) * 0x1_0000 + (b[2] as u32) * 0x100
            + (b[3] as u32);
        Magic::of_value(v)
    }
}

impl vstd::std_specs::convert::FromSpecImpl<[u8; 4]> for Magic {
    open spec fn obeys_from_spec() -> bool {
        true
    }

    open spec fn from_spec(b: [u8; 4]) -> Magic {
        Magic::from_value(
            (b[0] as nat * 0x100_0000 + b[1] as nat * 0x1_0000 + b[2] as nat * 0x100
                + b[3] as nat) as u32,
        )
    }
}

impl Encode for Magic {
    open spec fn encodable(&self) -> bool {
        true
    }

    open spec fn spec_encode(&self) -> Seq<u8> {
        le_bytes(self.spec_bytes() as nat, 4)
    }

    fn net_encode(&self, w: &mut Vec<u8>) -> (n: usize) {
        write_le(w, self.bytes() as u64, 4);
        proof {
            lemma_le_bytes_len(self.spec_bytes() as nat, 4);
        }
        4
    }
}

/// The main network's magic is `F9 BE B4 D9` on the wire, the test
/// network's `FA BF B5 DA`.
pub proof fn lemma_magic_bytes()
    ensures
        Magic::Main.spec_encode() == seq![0xF9u8, 0xBEu8, 0xB4u8, 0xD9u8],
        Magic::Test.spec_encode() == seq![0xFAu8, 0xBFu8, 0xB5u8, 0xDAu8],
{
    reveal_with_fuel(le_bytes, 5);
    assert(Magic::Main.spec_encode() =~= seq![0xF9u8, 0xBEu8, 0xB4u8, 0xD9u8]);
    assert(Magic::Test.spec_encode() =~= seq![0xFAu8, 0xBFu8, 0xB5u8, 0xDAu8]);
}

/// A known network decodes back from its magic, whatever follows it.
pub proof fn lemma_magic_round_trip(m: Magic, rest: Seq<u8>)
    requires
        !(m is Unknown),
    ensures
        decode_magic(m.spec_encode() + rest) == Decoded::Ok((m, 4nat)),
{
    lemma_pow256_values();
    crate::encode::lemma_decode_le_round_trip(m.spec_bytes() as nat, 4, rest);
}

/// Reading a magic: a number that names no known network is an error.
pub open spec fn decode_magic(bytes: Seq<u8>) -> Decoded<Magic> {
    match decode_le(bytes, 4) {
        Ok((v, n)) => match Magic::from_value(v as u32) {
            Magic::Unknown(u) => Decoded::Err(ErrorView::BadNetworkMagic(Magic::Unknown(u))),
            m => Decoded::Ok((m, n)),
        },
        Err(e) => Decoded::Err(e),
    }
}

impl Decode for Magic {
    open spec fn spec_decode(bytes: Seq<u8>) -> Decoded<Magic> {
        decode_magic(bytes)
    }

    fn net_decode(bytes: &[u8]) -> (res: Result<(Magic, usize), Error>) {
        if bytes.len() < 4 {
            return Err(Error::Io);
        }
        let v = read_le(bytes, 4);
        proof {
            lemma_pow256_values();
            lemma_le_value_bound(bytes@.take(4));
        }
        match Magic::of_value(v as u32) {
            Magic::Unknown(u) => Err(Error::BadNetworkMagic(Magic::Unknown(u))),
            m => Ok((m, 4)),
        }
    }
}

/// A message type.
#[derive(Debug, Clone, PartialEq, Eq)]
pub enum Command {
    Version,
    Verack,
    SendHeaders,
    WTxIdRelay,
    Ping,
    Pong,
    Addr,
    GetAddr,
    Inv,
    GetData,
    NotFound,
    Tx,
    /// A name that is not known, kept as it was read.
    Unknown(String),
}

/// The mathematical model of a [`Command`].
pub enum CommandView {
    Version,
    Verack,
    SendHeaders,
    WTxIdRelay,
    Ping,
    Pong,
    Addr,
    GetAddr,
    Inv,
    GetData,
    NotFound,
    Tx,
    Unknown(Seq<char>),
}

impl View for Command {
    type V = CommandView;

    open spec fn view(&self) -> CommandView {
        match self {
            Command::Version => CommandView::Version,
            Command::Verack => CommandView::Verack,
            Command::SendHeaders => CommandView::SendHeaders,
            Command::WTxIdRelay => CommandView::WTxIdRelay,
            Command::Ping => CommandView::Ping,
            Command::Pong => CommandView::Pong,
            Command::Addr => CommandView::Addr,
            Command::GetAddr => CommandView::GetAddr,
            Command::Inv => CommandView::Inv,
            Command::GetData => CommandView::GetData,
            Command::NotFound => CommandView::NotFound,
            Command::Tx => CommandView::Tx,
            Command::Unknown(s) => CommandView::Unknown(s@),
        }
    }
}

/// The name of a command.
pub open spec fn command_text(c: CommandView) -> Seq<char> {
    match c {
        CommandView::Version => seq!['v', 'e', 'r', 's', 'i', 'o', 'n'],
        CommandView::Verack => seq!['v', 'e', 'r', 'a', 'c', 'k'],
        CommandView::SendHeaders => seq!['s', 'e', 'n', 'd', 'h', 'e', 'a', 'd', 'e', 'r', 's'],
        CommandView::WTxIdRelay => seq!['w', 't', 'x', 'i', 'd', 'r', 'e', 'l', 'a', 'y'],
        CommandView::Ping => seq!['p', 'i', 'n', 'g'],
        CommandView::Pong => seq!['p', 'o', 'n', 'g'],
        CommandView::Addr => seq!['a', 'd', 'd', 'r'],
        CommandView::GetAddr => seq!['g', 'e', 't', 'a', 'd', 'd', 'r'],
        CommandView::Inv => seq!['i', 'n', 'v'],
        CommandView::GetData => seq!['g', 'e', 't', 'd', 'a', 't', 'a'],
        CommandView::NotFound => seq!['n', 'o', 't', 'f', 'o', 'u', 'n', 'd'],
        CommandView::Tx => seq!['t', 'x'],
        CommandView::Unknown(s) => s,
    }
}

/// The bytes of a command's name.
pub open spec fn name_bytes(c: CommandView) -> Seq<u8> {
    encode_utf8(command_text(c))
}

/// The known command whose name is `p`, if any.
pub open spec fn command_named(p: Seq<u8>) -> Option<CommandView> {
    if p == name_bytes(CommandView::Version) {
        Some(CommandView::Version)
    } else if p == name_bytes(CommandView::Verack) {
        Some(CommandView::Verack)
    } else if p == name_bytes(CommandView::SendHeaders) {
        Some(CommandView::SendHeaders)
    } else if p == name_bytes(CommandView::WTxIdRelay) {
        Some(CommandView::WTxIdRelay)
    } else if p == name_bytes(CommandView::Ping) {
        Some(CommandView::Ping)
    } else if p == name_bytes(CommandView::Pong) {
        Some(CommandView::Pong)
    } else if p == name_bytes(CommandView::Addr) {
        Some(CommandView::Addr)
    } else if p == name_bytes(CommandView::GetAddr) {
        Some(CommandView::GetAddr)
    } else if p == name_bytes(CommandView::Inv) {
        Some(CommandView::Inv)
    } else if p == name_bytes(CommandView::GetData) {
        Some(CommandView::GetData)
    } else if p == name_bytes(CommandView::NotFound) {
        Some(CommandView::NotFound)
    } else if p == name_bytes(CommandView::Tx) {
        Some(CommandView::Tx)
    } else {
        None
    }
}

/// A command that can be written and read back: its name fits the 12-byte
/// field, holds no zero byte, and an unknown one does not take a known name.
pub open spec fn command_wf(c: CommandView) -> bool {
    &&& name_bytes(c).len() <= 12
    &&& !name_bytes(c).contains(0u8)
    &&& (c is Unknown ==> command_named(name_bytes(c)) is None)
}

/// How many bytes come before the first zero byte (or the end).
pub open spec fn name_len(s: Seq<u8>) -> nat
    decreases s.len(),
{
    if s.len() == 0 || s[0] == 0 {
        0
    } else {
        1 + name_len(s.drop_first())
    }
}

/// The name held in a command field: the bytes before the first zero.
pub open spec fn field_name(field: Seq<u8>) -> Seq<u8> {
    field.take(name_len(field) as int)
}

/// Reading the 12-byte command field. A name that is not known is kept as
/// `Unknown`; one that is not UTF-8 is invalid.
pub open spec fn decode_command_field(bytes: Seq<u8>) -> Decoded<CommandView> {
    if bytes.len() < 12 {
        Decoded::Err(ErrorView::Io)
    } else {
        let p = field_name(bytes.take(12));
        match command_named(p) {
            Some(c) => Decoded::Ok((c, 12)),
            None => if valid_utf8(p) {
                Decoded::Ok((CommandView::Unknown(decode_utf8(p)), 12))
            } else {
                Decoded::Err(ErrorView::InvalidData)
            },
        }
    }
}

fn same_bytes(a: &[u8], b: &[u8]) -> (r: bool)
    ensures
        r == (a@ == b@),
{
    if a.len() != b.len() {
        return false;
    }
    let mut i: usize = 0;
    while i < a.len()
        invariant
            a@.len() == b@.len(),
            i <= a@.len(),
            forall|j: int| 0 <= j < i ==> a@[j] == b@[j],
        decreases a@.len() - i,
    {
        if a[i] != b[i] {
            return false;
        }
        i = i + 1;
    }
    assert(a@ =~= b@);
    true
}

/// The known command named by `p`.
fn lookup(p: &[u8]) -> (r: Option<Command>)
    ensures
        match r {
            Some(c) => command_named(p@) == Some(c@),
            None => command_named(p@) is None,
        },
{
    if same_bytes(p, Command::Version.to_str().as_bytes()) {
        return Some(Command::Version);
    }
    if same_bytes(p, Command::Verack.to_str().as_bytes()) {
        return Some(Command::Verack);
    }
    if same_bytes(p, Command::SendHeaders.to_str().as_bytes()) {
        return Some(Command::SendHeaders);
    }
    if same_bytes(p, Command::WTxIdRelay.to_str().as_bytes()) {
        return Some(Command::WTxIdRelay);
    }
    if same_bytes(p, Command::Ping.to_str().as_bytes()) {
        return Some(Command::Ping);
    }
    if same_bytes(p, Command::Pong.to_str().as_bytes()) {
        return Some(Command::Pong);
    }
    if same_bytes(p, Command::Addr.to_str().as_bytes()) {
        return Some(Command::Addr);
    }
    if same_bytes(p, Command::GetAddr.to_str().as_bytes()) {
        return Some(Command::GetAddr);
    }
    if same_bytes(p, Command::Inv.to_str().as_bytes()) {
        return Some(Command::Inv);
    }
    if same_bytes(p, Command::GetData.to_str().as_bytes()) {
        return Some(Command::GetData);
    }
    if same_bytes(p, Command::NotFound.to_str().as_bytes()) {
        return Some(Command::NotFound);
    }
    if same_bytes(p, Command::Tx.to_str().as_bytes()) {
        return Some(Command::Tx);
    }
    None
}

impl Command {
    /// The command's name.
    pub fn to_str(&self) -> (r: &str)
        ensures
            r@ == command_text(self@),
    {
        match self {
            Command::Version => {
                proof {
                    reveal_strlit("version");
                }
                "version"
            },
            Command::Verack => {
                proof {
                    reveal_strlit("verack");
                }
                "verack"
            },
            Command::SendHeaders => {
                proof {
                    reveal_strlit("sendheaders");
                }
                "sendheaders"
            },
            Command::WTxIdRelay => {
                proof {
                    reveal_strlit("wtxidrelay");
                }
                "wtxidrelay"
            },
            Command::Ping => {
                proof {
                    reveal_strlit("ping");
                }
                "ping"
            },
            Command::Pong => {
                proof {
                    reveal_strlit("pong");
                }
                "pong"
            },
            Command::Addr => {
                proof {
                    reveal_strlit("addr");
                }
                "addr"
            },
            Command::GetAddr => {
                proof {
                    reveal_strlit("getaddr");
                }
                "getaddr"
            },
            Command::Inv => {
                proof {
                    reveal_strlit("inv");
                }
                "inv"
            },
            Command::GetData => {
                proof {
                    reveal_strlit("getdata");
                }
                "getdata"
            },
            Command::NotFound => {
                proof {
                    reveal_strlit("notfound");
                }
                "notfound"
            },
            Command::Tx => {
                proof {
                    reveal_strlit("tx");
                }
                "tx"
            },
            Command::Unknown(s) => s.as_str(),
        }
    }

    /// The command with the given name; an unknown name is an error that
    /// carries it.
    pub fn from_str(cmd: String) -> (r: Result<Command, Error>)
        ensures
            match command_named(encode_utf8(cmd@)) {
                Some(c) => r is Ok && r->Ok_0@ == c,
                None => r matches Err(Error::UnknownCommand(s)) && s@ == cmd@,
            },
    {
        match lookup(cmd.as_str().as_bytes()) {
            Some(c) => Ok(c),
            None => Err(Error::UnknownCommand(cmd)),
        }
    }
}

/// `n` zero bytes.
pub open spec fn zeros(n: nat) -> Seq<u8> {
    Seq::new(n, |i: int| 0u8)
}

/// Reads the 12-byte command field at the start of `bytes`.
pub fn decode_command_field_exec(bytes: &[u8]) -> (res: Result<(Command, usize), Error>)
    ensures
        match res {
            Ok((c, n)) => decode_command_field(bytes@) == Decoded::Ok((c@, n as nat)),
            Err(e) => decode_command_field(bytes@) == Decoded::<CommandView>::Err(e@),
        },
{
    if bytes.len() < 12 {
        return Err(Error::Io);
    }
    let ghost field = bytes@.take(12);
    let mut k: usize = 0;
    assert(field.skip(0) =~= field);
    while k < 12 && bytes[k] != 0
        invariant
            k <= 12,
            12 <= bytes@.len(),
            field == bytes@.take(12),
            name_len(field) == k + name_len(field.skip(k as int)),
        decreases 12 - k,
    {
        assert(field.skip(k as int).drop_first() =~= field.skip(k + 1));
        k = k + 1;
    }
    let name = &bytes[0..k];
    assert(name_len(field.skip(k as int)) == 0);
    assert(name@ =~= field_name(field));
    match lookup(name) {
        Some(c) => Ok((c, 12)),
        None => match string_from_utf8(vstd::slice::slice_to_vec(name)) {
            Some(s) => Ok((Command::Unknown(s), 12)),
            None => Err(Error::InvalidData),
        },
    }
}

/// The 12-byte command field: the name, padded with zero bytes.
pub open spec fn command_bytes(c: CommandView) -> Seq<u8> {
    name_bytes(c) + zeros((12 - name_bytes(c).len()) as nat)
}

impl Encode for Command {
    open spec fn encodable(&self) -> bool {
        name_bytes(self@).len() <= 12
    }

    open spec fn spec_encode(&self) -> Seq<u8> {
        command_bytes(self@)
    }

    fn net_encode(&self, w: &mut Vec<u8>) -> (n: usize) {
        let ghost start = w@;
        let name = self.to_str().as_bytes();
        let mut i: usize = 0;
        while i < name.len()
            invariant
                i <= name@.len(),
                w@ == start + name@.take(i as int),
            decreases name@.len() - i,
        {
            assert(name@.take(i + 1) =~= name@.take(i as int).push(name@[i as int]));
            w.push(name[i]);
            i = i + 1;
        }
        assert(name@.take(name@.len() as int) =~= name@);
        let mut j: usize = name.len();
        while j < 12
            invariant
                name@.len() <= j <= 12,
                w@ == start + name@ + zeros((j - name@.len()) as nat),
            decreases 12 - j,
        {
            assert(zeros((j + 1 - name@.len()) as nat) =~= zeros((j - name@.len()) as nat).push(0u8));
            w.push(0);
            j = j + 1;
        }
        assert(w@ =~= start + self.spec_encode());
        12
    }
}

/// Reading a command on its own: a name that is not known is an error.
pub open spec fn decode_command(bytes: Seq<u8>) -> Decoded<CommandView> {
    match decode_command_field(bytes) {
        Ok((CommandView::Unknown(s), _)) => Decoded::Err(ErrorView::UnknownCommand(s)),
        r => r,
    }
}

impl Decode for Command {
    open spec fn spec_decode(bytes: Seq<u8>) -> Decoded<CommandView> {
        decode_command(bytes)
    }

    fn net_decode(bytes: &[u8]) -> (res: Result<(Command, usize), Error>) {
        match decode_command_field_exec(bytes) {
            Ok((Command::Unknown(s), _)) => Err(Error::UnknownCommand(s)),
            r => r,
        }
    }
}

proof fn lemma_name_len(p: Seq<u8>, z: Seq<u8>)
    requires
        !p.contains(0u8),
        z.len() == 0 || z[0] == 0,
    ensures
        name_len(p + z) == p.len(),
    decreases p.len(),
{
    if p.len() > 0 {
        assert((p + z)[0] == p[0]);
        assert(p[0] != 0) by {
            if p[0] == 0 {
                assert(p.contains(0u8));
            }
        }
        let q = p.drop_first();
        assert(!q.contains(0u8)) by {
            if q.contains(0u8) {
                let i = choose|i: int| 0 <= i < q.len() && q[i] == 0u8;
                assert(p[i + 1] == 0u8);
            }
        }
        assert((p + z).drop_first() =~= q + z);
        lemma_name_len(q, z);
    } else {
        assert(p + z =~= z);
    }
}

/// A known command is found again from its name.
proof fn lemma_known_name(c: CommandView)
    requires
        !(c is Unknown),
    ensures
        command_named(name_bytes(c)) == Some(c),
{
    broadcast use encode_utf8_decode_utf8;

    let t = command_text(c);
    assert forall|d: CommandView| name_bytes(d) == name_bytes(c) implies command_text(d) == t by {
        assert(decode_utf8(encode_utf8(command_text(d))) == command_text(d));
    }
    let version = command_text(CommandView::Version);
    let getaddr = command_text(CommandView::GetAddr);
    let getdata = command_text(CommandView::GetData);
    let ping = command_text(CommandView::Ping);
    let pong = command_text(CommandView::Pong);
    let addr = command_text(CommandView::Addr);
    assert(version[0] != getaddr[0]);
    assert(version[0] != getdata[0]);
    assert(getaddr[3] != getdata[3]);
    assert(ping[1] != pong[1]);
    assert(ping[0] != addr[0]);
    assert(pong[0] != addr[0]);
}

/// The command field decodes back to the command that was written in it,
/// whatever follows.
pub proof fn lemma_command_field_round_trip(c: Command, rest: Seq<u8>)
    requires
        command_wf(c@),
    ensures
        decode_command_field(c.spec_encode() + rest) == Decoded::Ok((c@, 12nat)),
{
    broadcast use encode_utf8_decode_utf8, encode_utf8_valid_utf8;

    let p = name_bytes(c@);
    let z = zeros((12 - p.len()) as nat);
    let b = c.spec_encode() + rest;
    assert(b.take(12) =~= p + z);
    lemma_name_len(p, z);
    assert(field_name(b.take(12)) =~= p);
    if !(c@ is Unknown) {
        lemma_known_name(c@);
    }
}

/// A known command decodes back from its encoding, whatever follows it.
pub proof fn lemma_command_round_trip(c: Command, rest: Seq<u8>)
    requires
        command_wf(c@),
        !(c@ is Unknown),
    ensures
        <Command as Decode>::spec_decode(c.spec_encode() + rest) == Decoded::Ok((c@, 12nat)),
{
    lemma_command_field_round_trip(c, rest);
}

/// The SHA-256 digest of some bytes.
pub uninterp spec fn sha256_of(data: Seq<u8>) -> Seq<u8>;

/// Relies on sha2's `Sha256::digest`: the SHA-256 digest of the bytes, which
/// depends on them alone.
#[verifier::external_body]
fn sha256(data: &[u8]) -> (r: [u8; 32])
    ensures
        r@ == sha256_of(data@),
{
    <sha2::Sha256 as sha2::Digest>::digest(data).into()
}

/// SHA-256 applied twice.
pub fn sha256d(data: &[u8]) -> (r: [u8; 32])
    ensures
        r@ == sha256_of(sha256_of(data@)),
{
    let once = sha256(data);
    sha256(once.as_slice())
}

/// The checksum of a payload: the first four bytes of its double SHA-256.
pub open spec fn checksum_of(payload: Seq<u8>) -> Seq<u8> {
    sha256_of(sha256_of(payload)).take(4)
}

/// The checksum of an encoded payload.
pub fn payload_checksum(payload: &[u8]) -> (r: [u8; 4])
    ensures
        r@ == checksum_of(payload@),
{
    let h = sha256d(payload);
    let r: [u8; 4] = [h[0], h[1], h[2], h[3]];
    assert(r@ =~= checksum_of(payload@));
    r
}

/// The checksum of the encoded value.
pub trait Checksum: Encode {
    fn checksum(&self) -> (r: [u8; 4])
        requires
            self.encodable(),
        ensures
            r@ == checksum_of(self.spec_encode()),
    ;
}

impl<T: Encode> Checksum for T {
    fn checksum(&self) -> (r: [u8; 4]) {
        let mut payload: Vec<u8> = Vec::new();
        self.net_encode(&mut payload);
        assert(payload@ =~= self.spec_encode());
        payload_checksum(payload.as_slice())
    }
}

/// The envelope of one message.
#[derive(Debug, Clone, PartialEq, Eq)]
pub struct MessageHeader {
    pub magic: Magic,
    pub command: Command,
    /// The length of the encoded payload.
    pub length: u32,
    /// The checksum of the encoded payload.
    pub checksum: [u8; 4],
}

/// The mathematical model of a [`MessageHeader`].
pub struct MessageHeaderView {
    pub magic: Magic,
    pub command: CommandView,
    pub length: u32,
    pub checksum: Seq<u8>,
}

impl View for MessageHeader {
    type V = MessageHeaderView;

    open spec fn view(&self) -> MessageHeaderView {
        MessageHeaderView {
            magic: self.magic,
            command: self.command@,
            length: self.length,
            checksum: self.checksum@,
        }
    }
}

impl MessageHeader {
    pub fn new(magic: Magic, command: Command, pylen: usize, checksum: [u8; 4]) -> (r:
        MessageHeader)
        requires
            pylen <= u32::MAX,
        ensures
            r.magic == magic,
            r.command == command,
            r.length == pylen,
            r.checksum == checksum,
    {
        MessageHeader { magic, command, length: pylen as u32, checksum }
    }
}

/// The 24 bytes of a header: magic, command field, payload length,
/// checksum.
pub open spec fn header_bytes(h: MessageHeaderView) -> Seq<u8> {
    le_bytes(h.magic.spec_bytes() as nat, 4) + command_bytes(h.command) + le_bytes(
        h.length as nat,
        4,
    ) + h.checksum
}

impl Encode for MessageHeader {
    open spec fn encodable(&self) -> bool {
        name_bytes(self.command@).len() <= 12
    }

    open spec fn spec_encode(&self) -> Seq<u8> {
        header_bytes(self@)
    }

    fn net_encode(&self, w: &mut Vec<u8>) -> (n: usize) {
        let ghost start = w@;
        self.magic.net_encode(w);
        self.command.net_encode(w);
        self.length.net_encode(w);
        self.checksum.net_encode(w);
        proof {
            lemma_le_bytes_len(self.magic.spec_bytes() as nat, 4);
            lemma_le_bytes_len(self.length as nat, 4);
            assert(w@ =~= start + self.spec_encode());
        }
        24
    }
}

/// Reading a header: magic, command field, payload length, checksum.
pub open spec fn decode_header(b: Seq<u8>) -> Decoded<MessageHeaderView> {
    match decode_magic(b) {
        Err(e) => Decoded::Err(e),
        Ok((m, _)) => match decode_command_field(b.skip(4)) {
            Err(e) => Decoded::Err(e),
            Ok((c, _)) => if b.len() < 24 {
                Decoded::Err(ErrorView::Io)
            } else {
                Decoded::Ok(
                    (
                        MessageHeaderView {
                            magic: m,
                            command: c,
                            length: le_value(b.subrange(16, 20)) as u32,
                            checksum: b.subrange(20, 24),
                        },
                        24,
                    ),
                )
            },
        },
    }
}

impl Decode for MessageHeader {
    open spec fn spec_decode(bytes: Seq<u8>) -> Decoded<MessageHeaderView> {
        decode_header(bytes)
    }

    fn net_decode(bytes: &[u8]) -> (res: Result<(MessageHeader, usize), Error>) {
        let magic = match Magic::net_decode(bytes) {
            Ok((m, _)) => m,
            Err(e) => return Err(e),
        };
        let rest = &bytes[4..bytes.len()];
        assert(rest@ =~= bytes@.skip(4));
        let command = match decode_command_field_exec(rest) {
            Ok((c, _)) => c,
            Err(e) => return Err(e),
        };
        if bytes.len() < 24 {
            return Err(Error::Io);
        }
        let len_bytes = &bytes[16..20];
        let length = read_le(len_bytes, 4);
        proof {
            lemma_pow256_values();
            lemma_le_value_bound(len_bytes@.take(4));
            assert(len_bytes@.take(4) =~= bytes@.subrange(16, 20));
        }
        let checksum: [u8; 4] = [bytes[20], bytes[21], bytes[22], bytes[23]];
        assert(checksum@ =~= bytes@.subrange(20, 24));
        Ok((MessageHeader { magic, command, length: length as u32, checksum }, 24))
    }
}

/// A header takes 24 bytes.
pub proof fn lemma_header_len(h: MessageHeader)
    ensures
        h.spec_encode().len() == 24 <==> name_bytes(h.command@).len() <= 12,
{
    lemma_le_bytes_len(h.magic.spec_bytes() as nat, 4);
    lemma_le_bytes_len(h.length as nat, 4);
}

/// A known command can be written and read back.
pub proof fn lemma_known_command_wf(c: CommandView)
    requires
        !(c is Unknown),
    ensures
        command_wf(c),
{
    let t = command_text(c);
    assert forall|i: int| 0 <= i < t.len() implies '\u{1}' <= #[trigger] t[i] <= '\u{7f}' by {}
    vstd::utf8::is_ascii_chars_encode_utf8(t);
    let b = name_bytes(c);
    assert(!b.contains(0u8)) by {
        if b.contains(0u8) {
            let i = choose|i: int| 0 <= i < b.len() && b[i] == 0u8;
            assert(t[i] as u8 == b[i]);
        }
    }
}

/// A header decodes back, field for field, from its encoding, whatever
/// follows it.
pub proof fn lemma_header_round_trip(h: MessageHeader, rest: Seq<u8>)
    requires
        !(h.magic is Unknown),
        command_wf(h.command@),
    ensures
        decode_header(h.spec_encode() + rest) == Decoded::Ok((h@, 24nat)),
{
    lemma_pow256_values();
    let m = le_bytes(h.magic.spec_bytes() as nat, 4);
    let c = h.command.spec_encode();
    let l = le_bytes(h.length as nat, 4);
    let b = h.spec_encode() + rest;
    crate::encode::lemma_le_round_trip(h.magic.spec_bytes() as nat, 4);
    crate::encode::lemma_le_round_trip(h.length as nat, 4);
    assert(b.take(4) =~= m);
    assert(b.skip(4) =~= c + (l + h.checksum@ + rest));
    lemma_command_field_round_trip(h.command, l + h.checksum@ + rest);
    assert(b.subrange(16, 20) =~= l);
    assert(b.subrange(20, 24) =~= h.checksum@);
}

} // verus!
