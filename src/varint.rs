//! Variable-length integers, the compact encoding of counts and lengths,
//! and the strings that they prefix.

use vstd::prelude::*;

use crate::encode::{
    Decode, Decoded, Encode, Error, ErrorView, decode_le, le_bytes, lemma_decode_le_round_trip,
    lemma_le_bytes_len, lemma_pow256_values, read_le, string_from_utf8, write_le,
};
use vstd::utf8::{decode_utf8, encode_utf8, encode_utf8_decode_utf8, encode_utf8_valid_utf8, valid_utf8};

verus! {

/// An unsigned 64-bit count written in the shortest of four forms.
#[derive(Debug, Clone, Copy, PartialEq, Eq, Structural)]
pub struct VariableInteger(pub u64);

impl View for VariableInteger {
    type V = VariableInteger;

    open spec fn view(&self) -> VariableInteger {
        *self
    }
}

impl VariableInteger {
    pub fn inner(&self) -> (r: u64)
        ensures
            r == self.0,
    {
        self.0
    }
}

impl From<u8> for VariableInteger {
    fn from(v: u8) -> (r: VariableInteger) {
        VariableInteger(v as u64)
    }
}

impl vstd::std_specs::convert::FromSpecImpl<u8> for VariableInteger {
    open spec fn obeys_from_spec() -> bool {
        true
    }

    open spec fn from_spec(v: u8) -> VariableInteger {
        VariableInteger(v as u64)
    }
}

impl From<u16> for VariableInteger {
    fn from(v: u16) -> (r: VariableInteger) {
        VariableInteger(v as u64)
    }
}

impl vstd::std_specs::convert::FromSpecImpl<u16> for VariableInteger {
    open spec fn obeys_from_spec() -> bool {
        true
    }

    open spec fn from_spec(v: u16) -> VariableInteger {
        VariableInteger(v as u64)
    }
}

impl From<u32> for VariableInteger {
    fn from(v: u32) -> (r: VariableInteger) {
        VariableInteger(v as u64)
    }
}

impl vstd::std_specs::convert::FromSpecImpl<u32> for VariableInteger {
    open spec fn obeys_from_spec() -> bool {
        true
    }

    open spec fn from_spec(v: u32) -> VariableInteger {
        VariableInteger(v as u64)
    }
}

impl From<u64> for VariableInteger {
    fn from(v: u64) -> (r: VariableInteger) {
        VariableInteger(v as u64)
    }
}

impl vstd::std_specs::convert::FromSpecImpl<u64> for VariableInteger {
    open spec fn obeys_from_spec() -> bool {
        true
    }

    open spec fn from_spec(v: u64) -> VariableInteger {
        VariableInteger(v as u64)
    }
}

impl From<usize> for VariableInteger {
    fn from(v: usize) -> (r: VariableInteger) {
        VariableInteger(v as u64)
    }
}

impl vstd::std_specs::convert::FromSpecImpl<usize> for VariableInteger {
    open spec fn obeys_from_spec() -> bool {
        true
    }

    open spec fn from_spec(v: usize) -> VariableInteger {
        VariableInteger(v as u64)
    }
}

/// The canonical encoding of `v`: the value itself below `0xFD`, else a
/// marker byte and 2, 4 or 8 little-endian bytes.
pub open spec fn varint_bytes(v: u64) -> Seq<u8> {
    if v <= 0xFC {
        seq![v as u8]
    } else if v <= 0xFFFF {
        seq![0xFDu8] + le_bytes(v as nat, 2)
    } else if v <= 0xFFFF_FFFF {
        seq![0xFEu8] + le_bytes(v as nat, 4)
    } else {
        seq![0xFFu8] + le_bytes(v as nat, 8)
    }
}

/// The width of the number that follows a marker byte (0 for no marker).
pub open spec fn varint_width(tag: u8) -> nat {
    if tag == 0xFD {
        2
    } else if tag == 0xFE {
        4
    } else if tag == 0xFF {
        8
    } else {
        0
    }
}

/// Reading a variable-length integer: any of the four forms is accepted,
/// shortest or not.
pub open spec fn decode_varint(bytes: Seq<u8>) -> Decoded<u64> {
    if bytes.len() < 1 {
        Decoded::Err(ErrorView::Io)
    } else if varint_width(bytes[0]) == 0 {
        Decoded::Ok((bytes[0] as u64, 1))
    } else {
        match decode_le(bytes.drop_first(), varint_width(bytes[0])) {
            Ok((v, n)) => Decoded::Ok((v as u64, n + 1)),
            Err(e) => Decoded::Err(e),
        }
    }
}

impl Encode for VariableInteger {
    open spec fn encodable(&self) -> bool {
        true
    }

    open spec fn spec_encode(&self) -> Seq<u8> {
        varint_bytes(self.0)
    }

    fn net_encode(&self, w: &mut Vec<u8>) -> (n: usize) {
        let v = self.0;
        proof {
            lemma_le_bytes_len(v as nat, 2);
            lemma_le_bytes_len(v as nat, 4);
            lemma_le_bytes_len(v as nat, 8);
        }
        if v <= 0xFC {
            w.push(v as u8);
            1
        } else if v <= 0xFFFF {
            w.push(0xFD);
            write_le(w, v, 2);
            3
        } else if v <= 0xFFFF_FFFF {
            w.push(0xFE);
            write_le(w, v, 4);
            5
        } else {
            w.push(0xFF);
            write_le(w, v, 8);
            9
        }
    }
}

impl Decode for VariableInteger {
    open spec fn spec_decode(bytes: Seq<u8>) -> Decoded<VariableInteger> {
        match decode_varint(bytes) {
            Ok((v, n)) => Decoded::Ok((VariableInteger(v), n)),
            Err(e) => Decoded::Err(e),
        }
    }

    fn net_decode(bytes: &[u8]) -> (res: Result<(VariableInteger, usize), Error>) {
        if bytes.len() < 1 {
            return Err(Error::Io);
        }
        let tag = bytes[0];
        let width: usize = if tag == 0xFD {
            2
        } else if tag == 0xFE {
            4
        } else if tag == 0xFF {
            8
        } else {
            0
        };
        if width == 0 {
            return Ok((VariableInteger(tag as u64), 1));
        }
        let rest = &bytes[1..bytes.len()];
        assert(rest@ =~= bytes@.drop_first());
        if rest.len() < width {
            return Err(Error::Io);
        }
        let v = read_le(rest, width);
        proof {
            lemma_pow256_values();
            crate::encode::lemma_le_value_bound(rest@.take(width as int));
        }
        Ok((VariableInteger(v), width + 1))
    }
}

/// The encoding takes 1, 3, 5 or 9 bytes, by the range of the value.
pub proof fn lemma_varint_len(v: u64)
    ensures
        v <= 0xFC ==> varint_bytes(v).len() == 1,
        0xFD <= v <= 0xFFFF ==> varint_bytes(v).len() == 3,
        0x1_0000 <= v <= 0xFFFF_FFFF ==> varint_bytes(v).len() == 5,
        0x1_0000_0000 <= v ==> varint_bytes(v).len() == 9,
{
    lemma_le_bytes_len(v as nat, 2);
    lemma_le_bytes_len(v as nat, 4);
    lemma_le_bytes_len(v as nat, 8);
}

/// A variable-length integer decodes back to its value, whatever follows it.
pub proof fn lemma_varint_round_trip(v: u64, rest: Seq<u8>)
    ensures
        decode_varint(varint_bytes(v) + rest) == Decoded::Ok((v, varint_bytes(v).len())),
{
    lemma_pow256_values();
    lemma_varint_len(v);
    let b = varint_bytes(v) + rest;
    if v <= 0xFC {
    } else if v <= 0xFFFF {
        lemma_decode_le_round_trip(v as nat, 2, rest);
        assert(b.drop_first() =~= le_bytes(v as nat, 2) + rest);
    } else if v <= 0xFFFF_FFFF {
        lemma_decode_le_round_trip(v as nat, 4, rest);
        assert(b.drop_first() =~= le_bytes(v as nat, 4) + rest);
    } else {
        lemma_decode_le_round_trip(v as nat, 8, rest);
        assert(b.drop_first() =~= le_bytes(v as nat, 8) + rest);
    }
}

/// The encoding of a string: the length of its UTF-8 bytes as a
/// variable-length integer, then the bytes.
pub open spec fn var_str_bytes(s: Seq<char>) -> Seq<u8> {
    varint_bytes(encode_utf8(s).len() as u64) + encode_utf8(s)
}

impl Encode for String {
    open spec fn encodable(&self) -> bool {
        true
    }

    open spec fn spec_encode(&self) -> Seq<u8> {
        var_str_bytes(self@)
    }

    fn net_encode(&self, w: &mut Vec<u8>) -> (n: usize) {
        let ghost start = w@;
        let start_len = w.len();
        let b = self.as_str().as_bytes();
        VariableInteger(b.len() as u64).net_encode(w);
        let ghost mid = w@;
        let mut i: usize = 0;
        while i < b.len()
            invariant
                i <= b@.len(),
                w@ == mid + b@.take(i as int),
            decreases b@.len() - i,
        {
            assert(b@.take(i + 1) =~= b@.take(i as int).push(b@[i as int]));
            w.push(b[i]);
            i = i + 1;
        }
        assert(b@.take(b@.len() as int) =~= b@);
        assert(w@ =~= start + self.spec_encode());
        w.len() - start_len
    }
}

/// Reading a string: a variable-length byte count, then that many bytes of
/// UTF-8.
pub open spec fn decode_var_str(b: Seq<u8>) -> Decoded<Seq<char>> {
    match decode_varint(b) {
        Err(e) => Decoded::Err(e),
        Ok((len, k)) => if b.len() < k + len {
            Decoded::Err(ErrorView::Io)
        } else if valid_utf8(b.subrange(k as int, k + len)) {
            Decoded::Ok((decode_utf8(b.subrange(k as int, k + len)), (k + len) as nat))
        } else {
            Decoded::Err(ErrorView::InvalidData)
        },
    }
}

impl Decode for String {
    open spec fn spec_decode(bytes: Seq<u8>) -> Decoded<Seq<char>> {
        decode_var_str(bytes)
    }

    fn net_decode(bytes: &[u8]) -> (res: Result<(String, usize), Error>) {
        let (len, k) = match VariableInteger::net_decode(bytes) {
            Ok((v, k)) => (v.0, k),
            Err(e) => return Err(e),
        };
        if len > (bytes.len() - k) as u64 {
            return Err(Error::Io);
        }
        let end = k + len as usize;
        let p = &bytes[k..end];
        match string_from_utf8(vstd::slice::slice_to_vec(p)) {
            Some(s) => Ok((s, end)),
            None => Err(Error::InvalidData),
        }
    }
}

/// A string decodes back from its encoding, whatever follows it.
pub proof fn lemma_var_str_round_trip(s: String, rest: Seq<u8>)
    requires
        encode_utf8(s@).len() <= usize::MAX,
    ensures
        decode_var_str(s.spec_encode() + rest) == Decoded::Ok((s@, s.spec_encode().len())),
{
    broadcast use encode_utf8_decode_utf8, encode_utf8_valid_utf8;

    let p = encode_utf8(s@);
    let v = p.len() as u64;
    let b = s.spec_encode() + rest;
    assert(b =~= varint_bytes(v) + (p + rest));
    lemma_varint_round_trip(v, p + rest);
    let k = varint_bytes(v).len();
    assert(b.subrange(k as int, (k + p.len()) as int) =~= p);
}

} // verus!
