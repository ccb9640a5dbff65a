//! The query of the multi-server scheme: one bit per row of the folded
//! database, and the bytes that carry the bits on the wire.
//!
//! On the wire bit `i` lives in byte `i / 8` at position `i % 8`, counted
//! from the least significant bit; bits of the last byte that lie behind the
//! last bit of the query are zero.

use vstd::prelude::*;
use bitvec::order::Lsb0;
use bitvec::vec::BitVec;

verus! {

/// A query of the multi-server scheme, held as the bit vector that the
/// scheme works on.
///
/// The bit vector is a `bitvec::vec::BitVec`, whose declaration lies outside
/// of what is verified here; [`spec_query_bits`] names what it holds.
#[derive(Debug, PartialEq, Eq)]
#[verifier::external_body]
pub struct RaidPirQuery {
    pub bits: BitVec<Lsb0, u8>,
}

/// The bits that a query holds, in their order.
pub uninterp spec fn spec_query_bits(query: RaidPirQuery) -> Seq<bool>;

/// Bit `k` of a byte, counted from the least significant.
pub open spec fn spec_bit(byte: u8, k: int) -> bool {
    (byte >> (k as u8)) & 1u8 == 1u8
}

/// The byte whose bit `k` is set where `k < count` and `bits[from + k]`
/// holds.
pub open spec fn spec_byte(bits: Seq<bool>, from: int, count: int) -> u8 {
    (if 0 < count && bits[from] { 1u8 } else { 0u8 })
    | (if 1 < count && bits[from + 1] { 2u8 } else { 0u8 })
    | (if 2 < count && bits[from + 2] { 4u8 } else { 0u8 })
    | (if 3 < count && bits[from + 3] { 8u8 } else { 0u8 })
    | (if 4 < count && bits[from + 4] { 16u8 } else { 0u8 })
    | (if 5 < count && bits[from + 5] { 32u8 } else { 0u8 })
    | (if 6 < count && bits[from + 6] { 64u8 } else { 0u8 })
    | (if 7 < count && bits[from + 7] { 128u8 } else { 0u8 })
}

/// The bits that a byte string carries: eight per byte, least significant
/// first.
pub open spec fn spec_unpack(bytes: Seq<u8>) -> Seq<bool> {
    Seq::new(8 * bytes.len(), |i: int| spec_bit(bytes[i / 8], i % 8))
}

/// The bytes that carry a bit string: as many as are needed, the last one
/// filled up with zero bits.
pub open spec fn spec_pack(bits: Seq<bool>) -> Seq<u8> {
    Seq::new(
        ((bits.len() + 7) / 8) as nat,
        |j: int| spec_byte(bits, 8 * j, bits.len() - 8 * j),
    )
}

/// A byte string this long is more than a query can hold.
pub open spec fn spec_overlong(len: nat) -> bool {
    64 * len + 63 > usize::MAX
}

/// A byte is made of its eight bits.
pub proof fn lemma_byte_of_bits(byte: u8)
    ensures
        byte == (if spec_bit(byte, 0) { 1u8 } else { 0u8 })
            | (if spec_bit(byte, 1) { 2u8 } else { 0u8 })
            | (if spec_bit(byte, 2) { 4u8 } else { 0u8 })
            | (if spec_bit(byte, 3) { 8u8 } else { 0u8 })
            | (if spec_bit(byte, 4) { 16u8 } else { 0u8 })
            | (if spec_bit(byte, 5) { 32u8 } else { 0u8 })
            | (if spec_bit(byte, 6) { 64u8 } else { 0u8 })
            | (if spec_bit(byte, 7) { 128u8 } else { 0u8 }),
{
    assert(byte == (if (byte >> 0u8) & 1u8 == 1u8 { 1u8 } else { 0u8 })
        | (if (byte >> 1u8) & 1u8 == 1u8 { 2u8 } else { 0u8 })
        | (if (byte >> 2u8) & 1u8 == 1u8 { 4u8 } else { 0u8 })
        | (if (byte >> 3u8) & 1u8 == 1u8 { 8u8 } else { 0u8 })
        | (if (byte >> 4u8) & 1u8 == 1u8 { 16u8 } else { 0u8 })
        | (if (byte >> 5u8) & 1u8 == 1u8 { 32u8 } else { 0u8 })
        | (if (byte >> 6u8) & 1u8 == 1u8 { 64u8 } else { 0u8 })
        | (if (byte >> 7u8) & 1u8 == 1u8 { 128u8 } else { 0u8 })) by (bit_vector);
}

/// The bits of a byte put together from eight bits are those bits.
pub proof fn lemma_bits_of_byte(
    b0: bool,
    b1: bool,
    b2: bool,
    b3: bool,
    b4: bool,
    b5: bool,
    b6: bool,
    b7: bool,
)
    ensures
        ({
            let byte: u8 = (if b0 { 1u8 } else { 0u8 }) | (if b1 { 2u8 } else { 0u8 }) | (if b2 {
                4u8
            } else {
                0u8
            }) | (if b3 { 8u8 } else { 0u8 }) | (if b4 { 16u8 } else { 0u8 }) | (if b5 {
                32u8
            } else {
                0u8
            }) | (if b6 { 64u8 } else { 0u8 }) | (if b7 { 128u8 } else { 0u8 });
            &&& spec_bit(byte, 0) == b0
            &&& spec_bit(byte, 1) == b1
            &&& spec_bit(byte, 2) == b2
            &&& spec_bit(byte, 3) == b3
            &&& spec_bit(byte, 4) == b4
            &&& spec_bit(byte, 5) == b5
            &&& spec_bit(byte, 6) == b6
            &&& spec_bit(byte, 7) == b7
        }),
{
    let x0: u8 = if b0 { 1u8 } else { 0u8 };
    let x1: u8 = if b1 { 2u8 } else { 0u8 };
    let x2: u8 = if b2 { 4u8 } else { 0u8 };
    let x3: u8 = if b3 { 8u8 } else { 0u8 };
    let x4: u8 = if b4 { 16u8 } else { 0u8 };
    let x5: u8 = if b5 { 32u8 } else { 0u8 };
    let x6: u8 = if b6 { 64u8 } else { 0u8 };
    let x7: u8 = if b7 { 128u8 } else { 0u8 };
    let byte: u8 = x0 | x1 | x2 | x3 | x4 | x5 | x6 | x7;
    assert(((byte >> 0u8) & 1u8 == 1u8) == (x0 == 1u8) && ((byte >> 1u8) & 1u8 == 1u8) == (x1
        == 2u8) && ((byte >> 2u8) & 1u8 == 1u8) == (x2 == 4u8) && ((byte >> 3u8) & 1u8 == 1u8)
        == (x3 == 8u8) && ((byte >> 4u8) & 1u8 == 1u8) == (x4 == 16u8) && ((byte >> 5u8) & 1u8
        == 1u8) == (x5 == 32u8) && ((byte >> 6u8) & 1u8 == 1u8) == (x6 == 64u8) && ((byte
        >> 7u8) & 1u8 == 1u8) == (x7 == 128u8)) by (bit_vector)
        requires
            byte == x0 | x1 | x2 | x3 | x4 | x5 | x6 | x7,
            x0 == 0u8 || x0 == 1u8,
            x1 == 0u8 || x1 == 2u8,
            x2 == 0u8 || x2 == 4u8,
            x3 == 0u8 || x3 == 8u8,
            x4 == 0u8 || x4 == 16u8,
            x5 == 0u8 || x5 == 32u8,
            x6 == 0u8 || x6 == 64u8,
            x7 == 0u8 || x7 == 128u8,
    ;
}

/// Packing the bits that bytes carry gives the bytes back.
pub proof fn lemma_pack_unpack(bytes: Seq<u8>)
    ensures
        spec_pack(spec_unpack(bytes)) == bytes,
{
    let bits: Seq<bool> = spec_unpack(bytes);
    let packed: Seq<u8> = spec_pack(bits);
    assert(packed.len() == bytes.len());
    assert forall|j: int| 0 <= j < bytes.len() implies packed[j] == bytes[j] by {
        lemma_byte_of_bits(bytes[j]);
        assert(bits.len() - 8 * j >= 8);
        assert(bits[8 * j] == spec_bit(bytes[j], 0));
        assert(bits[8 * j + 1] == spec_bit(bytes[j], 1));
        assert(bits[8 * j + 2] == spec_bit(bytes[j], 2));
        assert(bits[8 * j + 3] == spec_bit(bytes[j], 3));
        assert(bits[8 * j + 4] == spec_bit(bytes[j], 4));
        assert(bits[8 * j + 5] == spec_bit(bytes[j], 5));
        assert(bits[8 * j + 6] == spec_bit(bytes[j], 6));
        assert(bits[8 * j + 7] == spec_bit(bytes[j], 7));
    }
    assert(packed =~= bytes);
}

/// A query of whole bytes comes out of the wire as it went in: the bits
/// that the packed bytes carry are the bits that were packed.
pub proof fn lemma_unpack_pack(bits: Seq<bool>)
    requires
        bits.len() % 8 == 0,
    ensures
        spec_unpack(spec_pack(bits)) == bits,
{
    let packed: Seq<u8> = spec_pack(bits);
    let back: Seq<bool> = spec_unpack(packed);
    assert(back.len() == bits.len());
    assert forall|i: int| 0 <= i < bits.len() implies back[i] == bits[i] by {
        let j: int = i / 8;
        let k: int = i % 8;
        assert(bits.len() - 8 * j >= 8);
        lemma_bits_of_byte(
            bits[8 * j],
            bits[8 * j + 1],
            bits[8 * j + 2],
            bits[8 * j + 3],
            bits[8 * j + 4],
            bits[8 * j + 5],
            bits[8 * j + 6],
            bits[8 * j + 7],
        );
        assert(packed[j] == spec_byte(bits, 8 * j, bits.len() - 8 * j));
        assert(i == 8 * j + k);
    }
    assert(back =~= bits);
}

/// Makes a query over the bytes given, whose bits become the bits of the
/// query: `bitvec::vec::BitVec::from_vec` with the order `Lsb0`, in which
/// bit `k` of a byte is the one selected by `1 << k`. The call is refused
/// by the outside crate where eight times the length is more than
/// `usize::MAX >> 3`; such lengths are left out.
#[verifier::external_body]
fn bitvec_from_vec(bytes: Vec<u8>) -> (query: RaidPirQuery)
    requires
        !spec_overlong(bytes.len() as nat),
    ensures
        spec_query_bits(query) == spec_unpack(bytes@),
{
    RaidPirQuery { bits: BitVec::from_vec(bytes) }
}

/// The bytes of a copy of the query: `clone` of `bitvec::vec::BitVec`, which
/// copies the bits into a fresh vector that starts at bit 0 of zeroed bytes,
/// followed by `into_vec`, which hands out the bytes of that vector.
#[verifier::external_body]
fn bitvec_into_vec(query: &RaidPirQuery) -> (bytes: Vec<u8>)
    ensures
        bytes@ == spec_pack(spec_query_bits(*query)),
{
    query.bits.clone().into_vec()
}

impl RaidPirQuery {
    /// The query that `bytes` carry, if there is one: a byte string is
    /// refused where it is longer than a query can be.
    pub fn from_wire(bytes: Vec<u8>) -> (query: Option<RaidPirQuery>)
        ensures
            query is Some <==> !spec_overlong(bytes.len() as nat),
            query is Some ==> spec_query_bits(query->Some_0) == spec_unpack(bytes@),
    {
        if bytes.len() > (usize::MAX - 63) / 64 {
            None
        } else {
            Some(bitvec_from_vec(bytes))
        }
    }

    /// The bytes that carry this query.
    pub fn to_wire(&self) -> (bytes: Vec<u8>)
        ensures
            bytes@ == spec_pack(spec_query_bits(*self)),
    {
        bitvec_into_vec(self)
    }
}

} // verus!
