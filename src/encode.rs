//! The byte codec: little-endian integers, fixed byte arrays, and the
//! `Encode` / `Decode` interface that every wire type implements.

use vstd::prelude::*;
use vstd::utf8::{decode_utf8, valid_utf8};

use crate::header::Magic;

verus! {

/// Why decoding failed.
#[derive(Debug, PartialEq, Eq)]
pub enum Error {
    /// The bytes do not form a value of the expected shape.
    InvalidData,
    /// The message starts with a network magic that is not known.
    BadNetworkMagic(Magic),
    /// The bytes ended before the value did.
    Io,
    /// A command name that is not known (kept as read).
    UnknownCommand(String),
}

/// The mathematical model of an [`Error`].
pub enum ErrorView {
    InvalidData,
    BadNetworkMagic(Magic),
    Io,
    UnknownCommand(Seq<char>),
}

impl View for Error {
    type V = ErrorView;

    open spec fn view(&self) -> ErrorView {
        match self {
            Error::InvalidData => ErrorView::InvalidData,
            Error::BadNetworkMagic(m) => ErrorView::BadNetworkMagic(*m),
            Error::Io => ErrorView::Io,
            Error::UnknownCommand(s) => ErrorView::UnknownCommand(s@),
        }
    }
}

/// What a decoder makes of a byte sequence: a value and the number of bytes
/// it took, or the reason it failed.
pub type Decoded<V> = Result<(V, nat), ErrorView>;

/// A value that can be written in the wire format.
pub trait Encode {
    /// Whether the value can be written at all (a command name must fit its field).
    spec fn encodable(&self) -> bool;

    /// The bytes that stand for the value on the wire.
    spec fn spec_encode(&self) -> Seq<u8>;

    /// Appends the encoding to `w` and returns how many bytes were written.
    fn net_encode(&self, w: &mut Vec<u8>) -> (n: usize)
        requires
            self.encodable(),
        ensures
            final(w)@ == old(w)@ + self.spec_encode(),
            n == self.spec_encode().len(),
    ;
}

/// A value that can be read from the start of a byte sequence.
pub trait Decode: Sized + View {
    /// The value (as a model) that the first bytes of `bytes` decode to, and
    /// the number of bytes read.
    spec fn spec_decode(bytes: Seq<u8>) -> Decoded<Self::V>;

    /// Decodes a value from the start of `bytes`; returns it with the number
    /// of bytes read.
    fn net_decode(bytes: &[u8]) -> (res: Result<(Self, usize), Error>)
        ensures
            match res {
                Ok((v, n)) => Self::spec_decode(bytes@) == Decoded::Ok((v@, n as nat))
                    && n <= bytes@.len(),
                Err(e) => Self::spec_decode(bytes@) == Decoded::<Self::V>::Err(e@),
            },
    ;
}

/// Relies on `String::from_utf8`: it succeeds exactly on valid UTF-8, and
/// then holds the characters that the bytes encode.
#[verifier::external_body]
pub(crate) fn string_from_utf8(bytes: Vec<u8>) -> (r: Option<String>)
    ensures
        match r {
            Some(s) => valid_utf8(bytes@) && s@ == decode_utf8(bytes@),
            None => !valid_utf8(bytes@),
        },
{
    String::from_utf8(bytes).ok()
}

/// A slice's length fits a `usize`.
pub proof fn lemma_slice_len_bound(bytes: &[u8])
    ensures
        bytes@.len() <= usize::MAX,
{
    assert(bytes@.len() == bytes.len());
}

/// The bytes of `bytes` from `off` on.
pub(crate) fn tail(bytes: &[u8], off: usize) -> (r: &[u8])
    requires
        off <= bytes@.len(),
    ensures
        r@ == bytes@.skip(off as int),
{
    let r = &bytes[off..bytes.len()];
    assert(r@ =~= bytes@.skip(off as int));
    r
}

/// `256` to the power `n`.
pub open spec fn pow256(n: nat) -> nat
    decreases n,
{
    if n == 0 {
        1
    } else {
        256 * pow256((n - 1) as nat)
    }
}

/// The `n` low-order bytes of `v`, least significant first.
pub open spec fn le_bytes(v: nat, n: nat) -> Seq<u8>
    decreases n,
{
    if n == 0 {
        Seq::empty()
    } else {
        seq![(v % 256) as u8] + le_bytes(v / 256, (n - 1) as nat)
    }
}

/// The number whose little-endian bytes are `s`.
pub open spec fn le_value(s: Seq<u8>) -> nat
    decreases s.len(),
{
    if s.len() == 0 {
        0
    } else {
        s[0] as nat + 256 * le_value(s.drop_first())
    }
}

/// The number whose big-endian bytes are `s`.
pub open spec fn be_value(s: Seq<u8>) -> nat
    decreases s.len(),
{
    if s.len() == 0 {
        0
    } else {
        256 * be_value(s.drop_last()) + s.last() as nat
    }
}

/// Reading a fixed-width little-endian number of `n` bytes.
pub open spec fn decode_le(bytes: Seq<u8>, n: nat) -> Decoded<nat> {
    if bytes.len() < n {
        Decoded::Err(ErrorView::Io)
    } else {
        Decoded::Ok((le_value(bytes.take(n as int)), n))
    }
}

pub proof fn lemma_pow256_values()
    ensures
        pow256(0) == 1,
        pow256(1) == 0x100,
        pow256(2) == 0x1_0000,
        pow256(3) == 0x100_0000,
        pow256(4) == 0x1_0000_0000,
        pow256(5) == 0x100_0000_0000,
        pow256(6) == 0x1_0000_0000_0000,
        pow256(7) == 0x100_0000_0000_0000,
        pow256(8) == 0x1_0000_0000_0000_0000,
{
    reveal_with_fuel(pow256, 9);
}

pub proof fn lemma_le_bytes_len(v: nat, n: nat)
    ensures
        le_bytes(v, n).len() == n,
    decreases n,
{
    if n > 0 {
        lemma_le_bytes_len(v / 256, (n - 1) as nat);
    }
}

pub proof fn lemma_le_value_bound(s: Seq<u8>)
    ensures
        le_value(s) < pow256(s.len()),
    decreases s.len(),
{
    if s.len() > 0 {
        let r = s.drop_first();
        lemma_le_value_bound(r);
        let a = s[0] as nat;
        let b = le_value(r);
        let p = pow256(r.len());
        assert(a + 256 * b < 256 * p) by (nonlinear_arith)
            requires
                a < 256,
                b < p,
        ;
    }
}

/// Little-endian bytes of a number that fits read back as that number.
pub proof fn lemma_le_round_trip(v: nat, n: nat)
    requires
        v < pow256(n),
    ensures
        le_bytes(v, n).len() == n,
        le_value(le_bytes(v, n)) == v,
    decreases n,
{
    lemma_le_bytes_len(v, n);
    if n > 0 {
        let p = pow256((n - 1) as nat);
        assert(v / 256 < p) by (nonlinear_arith)
            requires
                v < 256 * p,
        ;
        lemma_le_round_trip(v / 256, (n - 1) as nat);
        assert(le_bytes(v, n).drop_first() =~= le_bytes(v / 256, (n - 1) as nat));
        assert(v == v % 256 + 256 * (v / 256)) by (nonlinear_arith);
    }
}

/// Appends the `n` low-order bytes of `v`, least significant first.
pub(crate) fn write_le(w: &mut Vec<u8>, v: u64, n: usize)
    ensures
        final(w)@ == old(w)@ + le_bytes(v as nat, n as nat),
{
    let ghost start = w@;
    let mut rem: u64 = v;
    let mut i: usize = 0;
    while i < n
        invariant
            i <= n,
            w@ + le_bytes(rem as nat, (n - i) as nat) == start + le_bytes(v as nat, n as nat),
        decreases n - i,
    {
        let b: u8 = (rem % 256) as u8;
        proof {
            let k = (n - i - 1) as nat;
            assert(le_bytes(rem as nat, k + 1) == seq![b] + le_bytes((rem / 256) as nat, k));
            assert(w@.push(b) + le_bytes((rem / 256) as nat, k) =~= w@ + (seq![b] + le_bytes(
                (rem / 256) as nat,
                k,
            )));
        }
        w.push(b);
        rem = rem / 256;
        i = i + 1;
    }
    assert(w@ + le_bytes(rem as nat, 0) =~= w@);
}

/// Reads the little-endian number held in the first `n` bytes of `b`.
pub(crate) fn read_le(b: &[u8], n: usize) -> (v: u64)
    requires
        n <= 8,
        n <= b@.len(),
    ensures
        v as nat == le_value(b@.take(n as int)),
{
    let mut acc: u64 = 0;
    let mut i: usize = n;
    proof {
        assert(b@.subrange(n as int, n as int) =~= Seq::<u8>::empty());
    }
    while i > 0
        invariant
            i <= n,
            n <= 8,
            n <= b@.len(),
            acc as nat == le_value(b@.subrange(i as int, n as int)),
        decreases i,
    {
        i = i - 1;
        proof {
            lemma_le_value_bound(b@.subrange(i + 1, n as int));
            lemma_pow256_values();
            let k = (n - i - 1) as nat;
            assert(pow256(k) <= 0x100_0000_0000_0000);
            assert(b@.subrange(i as int, n as int).drop_first() =~= b@.subrange(i + 1, n as int));
        }
        acc = (b[i] as u64) + 256 * acc;
    }
    assert(b@.subrange(0, n as int) =~= b@.take(n as int));
    acc
}

impl Encode for u8 {
    open spec fn encodable(&self) -> bool {
        true
    }

    open spec fn spec_encode(&self) -> Seq<u8> {
        le_bytes(*self as nat, 1)
    }

    fn net_encode(&self, w: &mut Vec<u8>) -> (n: usize) {
        write_le(w, *self as u64, 1);
        proof {
            lemma_le_bytes_len(*self as nat, 1);
        }
        1
    }
}

impl Decode for u8 {
    open spec fn spec_decode(bytes: Seq<u8>) -> Decoded<u8> {
        match decode_le(bytes, 1) {
            Ok((v, n)) => Decoded::Ok((v as u8, n)),
            Err(e) => Decoded::Err(e),
        }
    }

    fn net_decode(bytes: &[u8]) -> (res: Result<(u8, usize), Error>) {
        if bytes.len() < 1 {
            return Err(Error::Io);
        }
        let v = read_le(bytes, 1);
        Ok((v as u8, 1))
    }
}


impl Encode for u16 {
    open spec fn encodable(&self) -> bool {
        true
    }

    open spec fn spec_encode(&self) -> Seq<u8> {
        le_bytes(*self as nat, 2)
    }

    fn net_encode(&self, w: &mut Vec<u8>) -> (n: usize) {
        write_le(w, *self as u64, 2);
        proof {
            lemma_le_bytes_len(*self as nat, 2);
        }
        2
    }
}

impl Decode for u16 {
    open spec fn spec_decode(bytes: Seq<u8>) -> Decoded<u16> {
        match decode_le(bytes, 2) {
            Ok((v, n)) => Decoded::Ok((v as u16, n)),
            Err(e) => Decoded::Err(e),
        }
    }

    fn net_decode(bytes: &[u8]) -> (res: Result<(u16, usize), Error>) {
        if bytes.len() < 2 {
            return Err(Error::Io);
        }
        let v = read_le(bytes, 2);
        Ok((v as u16, 2))
    }
}

impl Encode for u32 {
    open spec fn encodable(&self) -> bool {
        true
    }

    open spec fn spec_encode(&self) -> Seq<u8> {
        le_bytes(*self as nat, 4)
    }

    fn net_encode(&self, w: &mut Vec<u8>) -> (n: usize) {
        write_le(w, *self as u64, 4);
        proof {
            lemma_le_bytes_len(*self as nat, 4);
        }
        4
    }
}

impl Decode for u32 {
    open spec fn spec_decode(bytes: Seq<u8>) -> Decoded<u32> {
        match decode_le(bytes, 4) {
            Ok((v, n)) => Decoded::Ok((v as u32, n)),
            Err(e) => Decoded::Err(e),
        }
    }

    fn net_decode(bytes: &[u8]) -> (res: Result<(u32, usize), Error>) {
        if bytes.len() < 4 {
            return Err(Error::Io);
        }
        let v = read_le(bytes, 4);
        Ok((v as u32, 4))
    }
}

impl Encode for u64 {
    open spec fn encodable(&self) -> bool {
        true
    }

    open spec fn spec_encode(&self) -> Seq<u8> {
        le_bytes(*self as nat, 8)
    }

    fn net_encode(&self, w: &mut Vec<u8>) -> (n: usize) {
        write_le(w, *self as u64, 8);
        proof {
            lemma_le_bytes_len(*self as nat, 8);
        }
        8
    }
}

impl Decode for u64 {
    open spec fn spec_decode(bytes: Seq<u8>) -> Decoded<u64> {
        match decode_le(bytes, 8) {
            Ok((v, n)) => Decoded::Ok((v as u64, n)),
            Err(e) => Decoded::Err(e),
        }
    }

    fn net_decode(bytes: &[u8]) -> (res: Result<(u64, usize), Error>) {
        if bytes.len() < 8 {
            return Err(Error::Io);
        }
        let v = read_le(bytes, 8);
        Ok((v as u64, 8))
    }
}

impl<const N: usize> Encode for [u8; N] {
    open spec fn encodable(&self) -> bool {
        true
    }

    open spec fn spec_encode(&self) -> Seq<u8> {
        self@
    }

    fn net_encode(&self, w: &mut Vec<u8>) -> (n: usize) {
        let ghost start = w@;
        let mut i: usize = 0;
        while i < N
            invariant
                i <= N,
                self@.len() == N,
                w@ == start + self@.take(i as int),
            decreases N - i,
        {
            assert(self@.take(i + 1) =~= self@.take(i as int).push(self@[i as int]));
            w.push(self[i]);
            i = i + 1;
        }
        assert(self@.take(N as int) =~= self@);
        N
    }
}

impl<const N: usize> Decode for [u8; N] {
    open spec fn spec_decode(bytes: Seq<u8>) -> Decoded<Seq<u8>> {
        if bytes.len() < N {
            Decoded::Err(ErrorView::Io)
        } else {
            Decoded::Ok((bytes.take(N as int), N as nat))
        }
    }

    fn net_decode(bytes: &[u8]) -> (res: Result<([u8; N], usize), Error>) {
        if bytes.len() < N {
            return Err(Error::Io);
        }
        let mut buf: [u8; N] = [0u8; N];
        let mut i: usize = 0;
        while i < N
            invariant
                i <= N,
                N <= bytes@.len(),
                buf@.len() == N,
                forall|j: int| 0 <= j < i ==> buf@[j] == bytes@[j],
            decreases N - i,
        {
            buf[i] = bytes[i];
            i = i + 1;
        }
        assert(buf@ =~= bytes@.take(N as int));
        Ok((buf, N))
    }
}

/// The byte array that holds `s`.
pub open spec fn array_of<const N: usize>(s: Seq<u8>) -> [u8; N] {
    choose|a: [u8; N]| a@ == s
}

/// An array is the array that holds its own bytes.
pub proof fn lemma_array_of<const N: usize>(a: [u8; N])
    ensures
        array_of::<N>(a@) == a,
{
    let b = array_of::<N>(a@);
    assert(b@ == a@);
    assert(b =~= a);
}

/// Reading `n` little-endian bytes back from their encoding, whatever follows.
pub proof fn lemma_decode_le_round_trip(v: nat, n: nat, rest: Seq<u8>)
    requires
        v < pow256(n),
    ensures
        decode_le(le_bytes(v, n) + rest, n) == Decoded::Ok((v, n)),
{
    lemma_le_round_trip(v, n);
    assert((le_bytes(v, n) + rest).take(n as int) =~= le_bytes(v, n));
}

/// A fixed-width integer decodes back from its encoding, whatever follows it.
pub proof fn lemma_integer_round_trip(x8: u8, x16: u16, x32: u32, x64: u64, rest: Seq<u8>)
    ensures
        <u8 as Decode>::spec_decode(x8.spec_encode() + rest) == Decoded::Ok((x8, 1nat)),
        <u16 as Decode>::spec_decode(x16.spec_encode() + rest) == Decoded::Ok((x16, 2nat)),
        <u32 as Decode>::spec_decode(x32.spec_encode() + rest) == Decoded::Ok((x32, 4nat)),
        <u64 as Decode>::spec_decode(x64.spec_encode() + rest) == Decoded::Ok((x64, 8nat)),
{
    lemma_pow256_values();
    lemma_decode_le_round_trip(x8 as nat, 1, rest);
    lemma_decode_le_round_trip(x16 as nat, 2, rest);
    lemma_decode_le_round_trip(x32 as nat, 4, rest);
    lemma_decode_le_round_trip(x64 as nat, 8, rest);
}

/// A byte array decodes back from its encoding, whatever follows it.
pub proof fn lemma_array_round_trip<const N: usize>(a: [u8; N], rest: Seq<u8>)
    ensures
        <[u8; N] as Decode>::spec_decode(a.spec_encode() + rest) == Decoded::Ok((a@, N as nat)),
{
    assert((a@ + rest).take(N as int) =~= a@);
}

} // verus!
