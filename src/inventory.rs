//! Inventory items: typed references to blocks and transactions.

use vstd::prelude::*;

use crate::encode::{
    Decode, Decoded, Encode, Error, array_of, decode_le, le_bytes, lemma_array_of,
    lemma_decode_le_round_trip, lemma_le_bytes_len, lemma_le_value_bound, lemma_pow256_values,
    tail,
};

verus! {

/// A 32-byte hash, kept in the byte order of the wire.
pub type Hash = [u8; 32];

/// The hash that an `Error` item carries on the wire: 32 zero bytes.
pub open spec fn zero_hash() -> Hash {
    array_of::<32>(Seq::new(32, |i: int| 0u8))
}

fn make_zero_hash() -> (r: Hash)
    ensures
        r == zero_hash(),
{
    let z: Hash = [0u8; 32];
    proof {
        assert(z@ =~= Seq::new(32, |i: int| 0u8));
        lemma_array_of(z);
    }
    z
}

/// A reference to an object that a peer announces or asks for.
#[derive(Debug, Clone, Copy, PartialEq, Eq)]
pub enum Inventory {
    /// An entry to be ignored.
    Error,
    /// A transaction.
    Tx(Hash),
    /// A block.
    Block(Hash),
    /// A block, answered with a merkle block (only in `getdata`).
    FilteredBlock(Hash),
    /// A block, answered with a compact block (only in `getdata`).
    CompactBlock(Hash),
    /// A transaction with witness data.
    WitnessTx(Hash),
    /// A block with witness data.
    WitnessBlock(Hash),
    /// A block with witness data, answered with a merkle block (only in `getdata`).
    FilteredWitnessBlock(Hash),
    /// A type identifier that is not known, kept with its hash.
    Unknown { inv_type: u32, hash: Hash },
}

impl View for Inventory {
    type V = Inventory;

    open spec fn view(&self) -> Inventory {
        *self
    }
}

/// The known type identifiers.
pub open spec fn is_known_inv_type(id: u32) -> bool {
    id <= 4 || id == 0x4000_0001 || id == 0x4000_0002 || id == 0x4000_0003
}

impl Inventory {
    pub open spec fn spec_identifier(self) -> u32 {
        match self {
            Inventory::Error => 0,
            Inventory::Tx(_) => 1,
            Inventory::Block(_) => 2,
            Inventory::FilteredBlock(_) => 3,
            Inventory::CompactBlock(_) => 4,
            Inventory::WitnessTx(_) => 0x4000_0001,
            Inventory::WitnessBlock(_) => 0x4000_0002,
            Inventory::FilteredWitnessBlock(_) => 0x4000_0003,
            Inventory::Unknown { inv_type, .. } => inv_type,
        }
    }

    /// The hash carried (all zeros for `Error`).
    pub open spec fn spec_inner(self) -> Hash {
        match self {
            Inventory::Error => zero_hash(),
            Inventory::Tx(h) => h,
            Inventory::Block(h) => h,
            Inventory::FilteredBlock(h) => h,
            Inventory::CompactBlock(h) => h,
            Inventory::WitnessTx(h) => h,
            Inventory::WitnessBlock(h) => h,
            Inventory::FilteredWitnessBlock(h) => h,
            Inventory::Unknown { hash, .. } => hash,
        }
    }

    pub open spec fn spec_from_id_and_hash(identifier: u32, hash: Hash) -> Inventory {
        if identifier == 0 {
            Inventory::Error
        } else if identifier == 1 {
            Inventory::Tx(hash)
        } else if identifier == 2 {
            Inventory::Block(hash)
        } else if identifier == 3 {
            Inventory::FilteredBlock(hash)
        } else if identifier == 4 {
            Inventory::CompactBlock(hash)
        } else if identifier == 0x4000_0001 {
            Inventory::WitnessTx(hash)
        } else if identifier == 0x4000_0002 {
            Inventory::WitnessBlock(hash)
        } else if identifier == 0x4000_0003 {
            Inventory::FilteredWitnessBlock(hash)
        } else {
            Inventory::Unknown { inv_type: identifier, hash }
        }
    }

    /// An item that reads back as itself: an unknown one has an unknown type,
    /// and an `Error` one is all it says.
    pub open spec fn wf(self) -> bool {
        self is Unknown ==> !is_known_inv_type(self->inv_type)
    }

    /// The item's type identifier.
    pub fn identifier(&self) -> (r: u32)
        ensures
            r == self.spec_identifier(),
    {
        match self {
            Inventory::Error => 0,
            Inventory::Tx(_) => 1,
            Inventory::Block(_) => 2,
            Inventory::FilteredBlock(_) => 3,
            Inventory::CompactBlock(_) => 4,
            Inventory::WitnessTx(_) => 0x4000_0001,
            Inventory::WitnessBlock(_) => 0x4000_0002,
            Inventory::FilteredWitnessBlock(_) => 0x4000_0003,
            Inventory::Unknown { inv_type, .. } => *inv_type,
        }
    }

    /// The item with the given type identifier and hash; an unknown
    /// identifier is kept.
    pub fn from_id_and_hash(identifier: u32, hash: Hash) -> (r: Inventory)
        ensures
            r == Inventory::spec_from_id_and_hash(identifier, hash),
    {
        match identifier {
            0 => Inventory::Error,
            1 => Inventory::Tx(hash),
            2 => Inventory::Block(hash),
            3 => Inventory::FilteredBlock(hash),
            4 => Inventory::CompactBlock(hash),
            0x4000_0001 => Inventory::WitnessTx(hash),
            0x4000_0002 => Inventory::WitnessBlock(hash),
            0x4000_0003 => Inventory::FilteredWitnessBlock(hash),
            _ => Inventory::Unknown { inv_type: identifier, hash },
        }
    }

    /// The name of the item's kind.
    pub open spec fn spec_kind_name(self) -> Seq<char> {
        match self {
            Inventory::Error => "Error"@,
            Inventory::Tx(_) => "Transaction"@,
            Inventory::Block(_) => "Block"@,
            Inventory::FilteredBlock(_) => "Filtered Block"@,
            Inventory::CompactBlock(_) => "Compact Block"@,
            Inventory::WitnessTx(_) => "Witness Transaction"@,
            Inventory::WitnessBlock(_) => "Witness Block"@,
            Inventory::FilteredWitnessBlock(_) => "Filtered Witness Block"@,
            Inventory::Unknown { .. } => "Unknown"@,
        }
    }

    /// The name of the item's kind, for display.
    pub fn kind_name(&self) -> (r: &'static str)
        ensures
            r@ == self.spec_kind_name(),
    {
        match self {
            Inventory::Error => "Error",
            Inventory::Tx(_) => "Transaction",
            Inventory::Block(_) => "Block",
            Inventory::FilteredBlock(_) => "Filtered Block",
            Inventory::CompactBlock(_) => "Compact Block",
            Inventory::WitnessTx(_) => "Witness Transaction",
            Inventory::WitnessBlock(_) => "Witness Block",
            Inventory::FilteredWitnessBlock(_) => "Filtered Witness Block",
            Inventory::Unknown { .. } => "Unknown",
        }
    }

    /// The hash carried; all zeros for `Error`.
    pub fn inner(&self) -> (r: Hash)
        ensures
            r == self.spec_inner(),
    {
        match self {
            Inventory::Error => make_zero_hash(),
            Inventory::Tx(h) => *h,
            Inventory::Block(h) => *h,
            Inventory::FilteredBlock(h) => *h,
            Inventory::CompactBlock(h) => *h,
            Inventory::WitnessTx(h) => *h,
            Inventory::WitnessBlock(h) => *h,
            Inventory::FilteredWitnessBlock(h) => *h,
            Inventory::Unknown { hash, .. } => *hash,
        }
    }
}

/// The encoding of an item: its type identifier (32-bit little-endian), then
/// the 32 hash bytes.
pub open spec fn inventory_bytes(i: Inventory) -> Seq<u8> {
    le_bytes(i.spec_identifier() as nat, 4) + i.spec_inner()@
}

impl Encode for Inventory {
    open spec fn encodable(&self) -> bool {
        true
    }

    open spec fn spec_encode(&self) -> Seq<u8> {
        inventory_bytes(*self)
    }

    fn net_encode(&self, w: &mut Vec<u8>) -> (n: usize) {
        let ghost start = w@;
        self.identifier().net_encode(w);
        self.inner().net_encode(w);
        proof {
            lemma_le_bytes_len(self.spec_identifier() as nat, 4);
        }
        assert(w@ =~= start + self.spec_encode());
        36
    }
}

/// Reading an item: a type identifier, then a hash.
pub open spec fn decode_inventory(b: Seq<u8>) -> Decoded<Inventory> {
    match decode_le(b, 4) {
        Err(e) => Decoded::Err(e),
        Ok((id, _)) => if b.len() < 36 {
            Decoded::Err(crate::encode::ErrorView::Io)
        } else {
            Decoded::Ok(
                (Inventory::spec_from_id_and_hash(id as u32, array_of::<32>(b.subrange(4, 36))), 36),
            )
        },
    }
}

impl Decode for Inventory {
    open spec fn spec_decode(bytes: Seq<u8>) -> Decoded<Inventory> {
        decode_inventory(bytes)
    }

    fn net_decode(bytes: &[u8]) -> (res: Result<(Inventory, usize), Error>) {
        let id = match u32::net_decode(bytes) {
            Ok((x, _)) => x,
            Err(e) => return Err(e),
        };
        proof {
            lemma_pow256_values();
            lemma_le_value_bound(bytes@.take(4));
        }
        let hash = match <[u8; 32]>::net_decode(tail(bytes, 4)) {
            Ok((h, _)) => h,
            Err(e) => return Err(e),
        };
        proof {
            assert(hash@ =~= bytes@.subrange(4, 36));
            lemma_array_of(hash);
        }
        Ok((Inventory::from_id_and_hash(id, hash), 36))
    }
}

/// A well-formed item decodes back from its encoding, whatever follows it.
pub proof fn lemma_inventory_round_trip(i: Inventory, rest: Seq<u8>)
    requires
        i.wf(),
    ensures
        decode_inventory(i.spec_encode() + rest) == Decoded::Ok((i, 36nat)),
{
    lemma_pow256_values();
    let h = i.spec_inner();
    let b = i.spec_encode() + rest;
    assert(b =~= le_bytes(i.spec_identifier() as nat, 4) + (h@ + rest));
    lemma_decode_le_round_trip(i.spec_identifier() as nat, 4, h@ + rest);
    lemma_le_bytes_len(i.spec_identifier() as nat, 4);
    assert(b.subrange(4, 36) =~= h@);
    lemma_array_of(h);

}

} // verus!
