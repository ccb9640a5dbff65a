//! The messages exchanged between a client and a server, and their form on
//! the wire.
//!
//! A frame is a four-byte discriminant followed by the fields of the variant:
//! a seed in sixteen bytes, a byte string behind its length in eight bytes.
//! All numbers are little-endian. A frame delimits itself, so a decoder may
//! be handed more bytes than the frame holds, or fewer.

use vstd::prelude::*;
use crate::wire::DEFAULT_FIELD_LIMIT;
use crate::wire::le_bytes;
use crate::wire::holds_at;
use crate::wire::spec_blob;
use crate::wire::spec_uint_at;
use crate::wire::spec_blob_at;
use crate::wire::spec_begins;
use crate::wire::spec_continues;
use crate::wire::put_u32;
use crate::wire::put_u128;
use crate::wire::put_blob;
use crate::wire::u32_at;
use crate::wire::u128_at;
use crate::wire::blob_at;
use crate::wire::copy_bytes;
use crate::wire::lemma_le_bytes_len;
use crate::wire::lemma_pow256_values;
use crate::wire::lemma_uint_at_reads;
use crate::wire::lemma_uint_at_holds;
use crate::wire::lemma_blob_at_reads;
use crate::wire::lemma_blob_at_holds;
use crate::wire::lemma_uint_at_continues;
use crate::wire::lemma_blob_at_continues;

pub use crate::wire::FrameError;
pub use crate::benchmark::BenchmarkMessage;
pub use crate::benchmark::BenchmarkParams;
pub use crate::benchmark::ProtocolMessage;
pub use crate::benchmark::RaidPirMessage;
pub use crate::benchmark::SealPirMessage;

verus! {

/// One message of the protocol between a client and one server.
#[derive(Debug, Clone, PartialEq, Eq)]
pub enum HybridPirMessage {
    /// Opens the exchange; sent by the client.
    Hello,
    /// A fresh seed; sent by the server.
    Seed(u128),
    /// The query of the multi-server scheme for this server, the evaluation
    /// key of the single-server scheme and its query; sent by the client.
    Query(Vec<u8>, Vec<u8>, Vec<u8>),
    /// The reply of the single-server scheme; sent by the server.
    Response(Vec<u8>),
}

/// What a [`HybridPirMessage`] holds.
pub enum HybridPirFrame {
    Hello,
    Seed(u128),
    Query(Seq<u8>, Seq<u8>, Seq<u8>),
    Response(Seq<u8>),
}

impl View for HybridPirMessage {
    type V = HybridPirFrame;

    open spec fn view(&self) -> HybridPirFrame {
        match *self {
            HybridPirMessage::Hello => HybridPirFrame::Hello,
            HybridPirMessage::Seed(seed) => HybridPirFrame::Seed(seed),
            HybridPirMessage::Query(raidpir, key, sealpir) => HybridPirFrame::Query(
                raidpir@,
                key@,
                sealpir@,
            ),
            HybridPirMessage::Response(reply) => HybridPirFrame::Response(reply@),
        }
    }
}

/// Seconds after which a read or a write on a stream of the protocol is
/// given up.
pub const STREAM_TIMEOUT_SECS: u64 = 60;

/// Discriminant of `Hello`.
pub const TAG_HELLO: u32 = 0;

/// Discriminant of `Seed`.
pub const TAG_SEED: u32 = 1;

/// Discriminant of `Query`.
pub const TAG_QUERY: u32 = 2;

/// Discriminant of `Response`.
pub const TAG_RESPONSE: u32 = 3;

impl HybridPirFrame {
    /// The frame of a message.
    pub open spec fn encoding(self) -> Seq<u8> {
        match self {
            HybridPirFrame::Hello => le_bytes(TAG_HELLO as nat, 4),
            HybridPirFrame::Seed(seed) => le_bytes(TAG_SEED as nat, 4) + le_bytes(seed as nat, 16),
            HybridPirFrame::Query(raidpir, key, sealpir) => le_bytes(TAG_QUERY as nat, 4)
                + spec_blob(raidpir) + spec_blob(key) + spec_blob(sealpir),
            HybridPirFrame::Response(reply) => le_bytes(TAG_RESPONSE as nat, 4) + spec_blob(reply),
        }
    }

    /// No field is longer than `limit`.
    pub open spec fn fits(self, limit: nat) -> bool {
        match self {
            HybridPirFrame::Hello => true,
            HybridPirFrame::Seed(_) => true,
            HybridPirFrame::Query(raidpir, key, sealpir) => raidpir.len() <= limit && key.len()
                <= limit && sealpir.len() <= limit,
            HybridPirFrame::Response(reply) => reply.len() <= limit,
        }
    }

    /// What decoding at offset `at` gives: the message and the offset behind
    /// its frame, or the reason for which there is none.
    pub open spec fn decoding_at(bytes: Seq<u8>, at: int, limit: nat) -> Result<
        (HybridPirFrame, int),
        FrameError,
    > {
        match spec_uint_at(bytes, at, 4) {
            Err(e) => Err(e),
            Ok((tag, fields)) => if tag == TAG_HELLO {
                Ok((HybridPirFrame::Hello, fields))
            } else if tag == TAG_SEED {
                match spec_uint_at(bytes, fields, 16) {
                    Err(e) => Err(e),
                    Ok((seed, end)) => Ok((HybridPirFrame::Seed(seed as u128), end)),
                }
            } else if tag == TAG_QUERY {
                match spec_blob_at(bytes, fields, limit) {
                    Err(e) => Err(e),
                    Ok((raidpir, second)) => match spec_blob_at(bytes, second, limit) {
                        Err(e) => Err(e),
                        Ok((key, third)) => match spec_blob_at(bytes, third, limit) {
                            Err(e) => Err(e),
                            Ok((sealpir, end)) => Ok(
                                (HybridPirFrame::Query(raidpir, key, sealpir), end),
                            ),
                        },
                    },
                }
            } else if tag == TAG_RESPONSE {
                match spec_blob_at(bytes, fields, limit) {
                    Err(e) => Err(e),
                    Ok((reply, end)) => Ok((HybridPirFrame::Response(reply), end)),
                }
            } else {
                Err(FrameError::InvalidTag)
            },
        }
    }

    /// What decoding from the start gives.
    pub open spec fn decoding(bytes: Seq<u8>, limit: nat) -> Result<
        (HybridPirFrame, int),
        FrameError,
    > {
        Self::decoding_at(bytes, 0, limit)
    }

    /// The length of a frame.
    pub proof fn lemma_encoding_len(self)
        ensures
            self.encoding().len() == match self {
                HybridPirFrame::Hello => 4,
                HybridPirFrame::Seed(_) => 20,
                HybridPirFrame::Query(raidpir, key, sealpir) => 28 + raidpir.len() + key.len()
                    + sealpir.len(),
                HybridPirFrame::Response(reply) => 12 + reply.len(),
            },
    {
        lemma_le_bytes_len(TAG_HELLO as nat, 4);
        lemma_le_bytes_len(TAG_SEED as nat, 4);
        lemma_le_bytes_len(TAG_QUERY as nat, 4);
        lemma_le_bytes_len(TAG_RESPONSE as nat, 4);
        match self {
            HybridPirFrame::Hello => {},
            HybridPirFrame::Seed(seed) => {
                lemma_le_bytes_len(seed as nat, 16);
            },
            HybridPirFrame::Query(raidpir, key, sealpir) => {
                lemma_le_bytes_len(raidpir.len(), 8);
                lemma_le_bytes_len(key.len(), 8);
                lemma_le_bytes_len(sealpir.len(), 8);
            },
            HybridPirFrame::Response(reply) => {
                lemma_le_bytes_len(reply.len(), 8);
            },
        }
    }

    /// Decoding gives back what was encoded: where the frame of a message
    /// whose fields respect the ceiling stands at `at`, decoding at `at`
    /// gives that message and the offset behind the frame, whatever follows.
    pub proof fn lemma_decoding_of_encoding(self, bytes: Seq<u8>, at: int, limit: nat)
        requires
            bytes.len() <= usize::MAX,
            self.fits(limit),
            holds_at(bytes, at, self.encoding()),
        ensures
            Self::decoding_at(bytes, at, limit) == Ok::<(HybridPirFrame, int), FrameError>(
                (self, at + self.encoding().len()),
            ),
    {
        self.lemma_encoding_len();
        lemma_pow256_values();
        let frame: Seq<u8> = self.encoding();
        let tag: nat = match self {
            HybridPirFrame::Hello => TAG_HELLO as nat,
            HybridPirFrame::Seed(_) => TAG_SEED as nat,
            HybridPirFrame::Query(_, _, _) => TAG_QUERY as nat,
            HybridPirFrame::Response(_) => TAG_RESPONSE as nat,
        };
        lemma_le_bytes_len(tag, 4);
        assert(bytes.subrange(at, at + 4) =~= frame.subrange(0, 4));
        assert(frame.subrange(0, 4) =~= le_bytes(tag, 4));
        lemma_uint_at_reads(bytes, at, tag, 4);
        match self {
            HybridPirFrame::Hello => {},
            HybridPirFrame::Seed(seed) => {
                lemma_le_bytes_len(seed as nat, 16);
                assert(bytes.subrange(at + 4, at + 20) =~= frame.subrange(4, 20));
                assert(frame.subrange(4, 20) =~= le_bytes(seed as nat, 16));
                lemma_uint_at_reads(bytes, at + 4, seed as nat, 16);
            },
            HybridPirFrame::Query(raidpir, key, sealpir) => {
                lemma_le_bytes_len(raidpir.len(), 8);
                lemma_le_bytes_len(key.len(), 8);
                lemma_le_bytes_len(sealpir.len(), 8);
                let a: int = at + 4;
                let b: int = a + 8 + raidpir.len();
                let c: int = b + 8 + key.len();
                let d: int = c + 8 + sealpir.len();
                assert(bytes.subrange(a, b) =~= frame.subrange(a - at, b - at));
                assert(frame.subrange(a - at, b - at) =~= spec_blob(raidpir));
                assert(bytes.subrange(b, c) =~= frame.subrange(b - at, c - at));
                assert(frame.subrange(b - at, c - at) =~= spec_blob(key));
                assert(bytes.subrange(c, d) =~= frame.subrange(c - at, d - at));
                assert(frame.subrange(c - at, d - at) =~= spec_blob(sealpir));
                lemma_blob_at_reads(bytes, a, raidpir, limit);
                lemma_blob_at_reads(bytes, b, key, limit);
                lemma_blob_at_reads(bytes, c, sealpir, limit);
            },
            HybridPirFrame::Response(reply) => {
                lemma_le_bytes_len(reply.len(), 8);
                let a: int = at + 4;
                let b: int = a + 8 + reply.len();
                assert(bytes.subrange(a, b) =~= frame.subrange(a - at, b - at));
                assert(frame.subrange(a - at, b - at) =~= spec_blob(reply));
                lemma_blob_at_reads(bytes, a, reply, limit);
            },
        }
    }

    /// What was decoded is what stands there: the bytes from `at` to the
    /// offset returned are the frame of the message returned, and its fields
    /// respect the ceiling.
    pub proof fn lemma_encoding_of_decoding(bytes: Seq<u8>, at: int, limit: nat)
        requires
            0 <= at,
            Self::decoding_at(bytes, at, limit) is Ok,
        ensures
            Self::decoding_at(bytes, at, limit)->Ok_0.0.fits(limit),
            Self::decoding_at(bytes, at, limit)->Ok_0.1 == at + Self::decoding_at(
                bytes,
                at,
                limit,
            )->Ok_0.0.encoding().len(),
            holds_at(bytes, at, Self::decoding_at(bytes, at, limit)->Ok_0.0.encoding()),
    {
        let message: HybridPirFrame = Self::decoding_at(bytes, at, limit)->Ok_0.0;
        let end: int = Self::decoding_at(bytes, at, limit)->Ok_0.1;
        message.lemma_encoding_len();
        lemma_pow256_values();
        lemma_uint_at_holds(bytes, at, 4);
        let a: int = at + 4;
        match message {
            HybridPirFrame::Hello => {
                assert(spec_uint_at(bytes, at, 4)->Ok_0.0 == TAG_HELLO);
                assert(holds_at(bytes, at, message.encoding()));
            },
            HybridPirFrame::Seed(seed) => {
                lemma_uint_at_holds(bytes, a, 16);
                lemma_le_bytes_len(seed as nat, 16);
                assert(bytes.subrange(at, end) =~= bytes.subrange(at, a) + bytes.subrange(a, end));
                assert(holds_at(bytes, at, message.encoding()));
            },
            HybridPirFrame::Query(raidpir, key, sealpir) => {
                lemma_blob_at_holds(bytes, a, limit);
                let b: int = a + 8 + raidpir.len();
                lemma_blob_at_holds(bytes, b, limit);
                let c: int = b + 8 + key.len();
                lemma_blob_at_holds(bytes, c, limit);
                lemma_le_bytes_len(raidpir.len(), 8);
                lemma_le_bytes_len(key.len(), 8);
                lemma_le_bytes_len(sealpir.len(), 8);
                assert(bytes.subrange(at, end) =~= bytes.subrange(at, a) + bytes.subrange(a, b)
                    + bytes.subrange(b, c) + bytes.subrange(c, end));
                assert(holds_at(bytes, at, message.encoding()));
            },
            HybridPirFrame::Response(reply) => {
                lemma_blob_at_holds(bytes, a, limit);
                lemma_le_bytes_len(reply.len(), 8);
                assert(bytes.subrange(at, end) =~= bytes.subrange(at, a) + bytes.subrange(a, end));
                assert(holds_at(bytes, at, message.encoding()));
            },
        }
    }

    /// Decoding from a longer input: a message and a refusal stay as they
    /// are; a demand for more bytes stays as it is until the input reaches
    /// the length demanded, and never asks for a byte behind the frame's end.
    pub proof fn lemma_decoding_continues(bytes: Seq<u8>, longer: Seq<u8>, at: int, limit: nat)
        requires
            spec_begins(bytes, longer),
            0 <= at <= bytes.len(),
        ensures
            spec_continues(
                Self::decoding_at(bytes, at, limit),
                Self::decoding_at(longer, at, limit),
                bytes.len(),
                longer.len(),
            ),
    {
        lemma_uint_at_continues(bytes, longer, at, 4);
        let a: int = at + 4;
        if spec_uint_at(bytes, at, 4) is Ok {
            let tag: nat = spec_uint_at(bytes, at, 4)->Ok_0.0;
            if tag == TAG_SEED {
                lemma_uint_at_continues(bytes, longer, a, 16);
            } else if tag == TAG_RESPONSE {
                lemma_blob_at_continues(bytes, longer, a, limit);
            } else if tag == TAG_QUERY {
                lemma_blob_at_continues(bytes, longer, a, limit);
                if spec_blob_at(bytes, a, limit) is Ok {
                    let b: int = spec_blob_at(bytes, a, limit)->Ok_0.1;
                    lemma_blob_at_continues(bytes, longer, b, limit);
                    if spec_blob_at(bytes, b, limit) is Ok {
                        let c: int = spec_blob_at(bytes, b, limit)->Ok_0.1;
                        lemma_blob_at_continues(bytes, longer, c, limit);
                    }
                }
            }
        }
    }

    /// Decoding the frame of a message gives the message back, for every
    /// variant, whether its byte strings are empty or as long as the ceiling
    /// allows.
    pub proof fn lemma_round_trip(self, limit: nat)
        requires
            self.fits(limit),
            self.encoding().len() <= usize::MAX,
        ensures
            Self::decoding(self.encoding(), limit) == Ok::<(HybridPirFrame, int), FrameError>(
                (self, self.encoding().len() as int),
            ),
    {
        let frame: Seq<u8> = self.encoding();
        assert(frame.subrange(0, frame.len() as int) =~= frame);
        self.lemma_decoding_of_encoding(frame, 0, limit);
    }

    /// Reading by demand takes no byte of what follows the frame: where the
    /// decoder asks for more than it was given and a longer input holds a
    /// frame, the length asked for lies behind the end of what was given and
    /// not behind the end of the frame.
    pub proof fn lemma_demand_within_frame(bytes: Seq<u8>, longer: Seq<u8>, limit: nat)
        requires
            spec_begins(bytes, longer),
            Self::decoding(bytes, limit) is Err,
            Self::decoding(bytes, limit)->Err_0 is Incomplete,
            Self::decoding(longer, limit) is Ok,
        ensures
            bytes.len() < Self::decoding(bytes, limit)->Err_0->needed <= Self::decoding(
                longer,
                limit,
            )->Ok_0.1,
    {
        Self::lemma_decoding_continues(bytes, longer, 0, limit);
    }
}

impl HybridPirMessage {
    /// A copy of this message.
    pub fn duplicate(&self) -> (copy: HybridPirMessage)
        ensures
            copy@ == self@,
    {
        match self {
            HybridPirMessage::Hello => HybridPirMessage::Hello,
            HybridPirMessage::Seed(seed) => HybridPirMessage::Seed(*seed),
            HybridPirMessage::Query(raidpir, key, sealpir) => HybridPirMessage::Query(
                copy_bytes(raidpir),
                copy_bytes(key),
                copy_bytes(sealpir),
            ),
            HybridPirMessage::Response(reply) => HybridPirMessage::Response(copy_bytes(reply)),
        }
    }

    /// Appends the frame of this message to `stream`.
    pub fn write_to(&self, stream: &mut Vec<u8>)
        ensures
            final(stream)@ == old(stream)@ + self@.encoding(),
    {
        match self {
            HybridPirMessage::Hello => {
                put_u32(stream, TAG_HELLO);
            },
            HybridPirMessage::Seed(seed) => {
                put_u32(stream, TAG_SEED);
                put_u128(stream, *seed);
            },
            HybridPirMessage::Query(raidpir, key, sealpir) => {
                put_u32(stream, TAG_QUERY);
                put_blob(stream, raidpir.as_slice());
                put_blob(stream, key.as_slice());
                put_blob(stream, sealpir.as_slice());
            },
            HybridPirMessage::Response(reply) => {
                put_u32(stream, TAG_RESPONSE);
                put_blob(stream, reply.as_slice());
            },
        }
        assert(stream@ =~= old(stream)@ + self@.encoding());
    }

    /// The frame of this message.
    pub fn encode(&self) -> (bytes: Vec<u8>)
        ensures
            bytes@ == self@.encoding(),
    {
        let mut bytes: Vec<u8> = Vec::new();
        self.write_to(&mut bytes);
        assert(bytes@ =~= self@.encoding());
        bytes
    }

    /// Decodes the frame that starts at offset `at` of `bytes`, refusing a
    /// field longer than `limit`. Returns the message and the offset behind
    /// its frame.
    pub fn decode_at(bytes: &[u8], at: usize, limit: usize) -> (r: Result<
        (HybridPirMessage, usize),
        FrameError,
    >)
        requires
            at <= bytes.len(),
        ensures
            match r {
                Ok((message, end)) => HybridPirFrame::decoding_at(bytes@, at as int, limit as nat)
                    == Ok::<(HybridPirFrame, int), FrameError>((message@, end as int)),
                Err(e) => HybridPirFrame::decoding_at(bytes@, at as int, limit as nat) == Err::<
                    (HybridPirFrame, int),
                    FrameError,
                >(e),
            },
    {
        let (tag, fields) = match u32_at(bytes, at) {
            Err(e) => { return Err(e); },
            Ok(read) => read,
        };
        if tag == TAG_HELLO {
            Ok((HybridPirMessage::Hello, fields))
        } else if tag == TAG_SEED {
            match u128_at(bytes, fields) {
                Err(e) => Err(e),
                Ok((seed, end)) => Ok((HybridPirMessage::Seed(seed), end)),
            }
        } else if tag == TAG_QUERY {
            let (raidpir, second) = match blob_at(bytes, fields, limit) {
                Err(e) => { return Err(e); },
                Ok(read) => read,
            };
            let (key, third) = match blob_at(bytes, second, limit) {
                Err(e) => { return Err(e); },
                Ok(read) => read,
            };
            let (sealpir, end) = match blob_at(bytes, third, limit) {
                Err(e) => { return Err(e); },
                Ok(read) => read,
            };
            Ok((HybridPirMessage::Query(raidpir, key, sealpir), end))
        } else if tag == TAG_RESPONSE {
            match blob_at(bytes, fields, limit) {
                Err(e) => Err(e),
                Ok((reply, end)) => Ok((HybridPirMessage::Response(reply), end)),
            }
        } else {
            Err(FrameError::InvalidTag)
        }
    }

    /// Decodes the frame at the start of `bytes`, refusing a field longer
    /// than `limit`. Returns the message and the length of its frame.
    pub fn decode(bytes: &[u8], limit: usize) -> (r: Result<(HybridPirMessage, usize), FrameError>)
        ensures
            match r {
                Ok((message, end)) => HybridPirFrame::decoding(bytes@, limit as nat) == Ok::<
                    (HybridPirFrame, int),
                    FrameError,
                >((message@, end as int)),
                Err(e) => HybridPirFrame::decoding(bytes@, limit as nat) == Err::<
                    (HybridPirFrame, int),
                    FrameError,
                >(e),
            },
    {
        Self::decode_at(bytes, 0, limit)
    }

    /// Decodes the frame at the start of `stream` under the default ceiling
    /// for one field. Returns the message and the length of its frame.
    pub fn read_from(stream: &[u8]) -> (r: Result<(HybridPirMessage, usize), FrameError>)
        ensures
            match r {
                Ok((message, end)) => HybridPirFrame::decoding(
                    stream@,
                    DEFAULT_FIELD_LIMIT as nat,
                ) == Ok::<(HybridPirFrame, int), FrameError>((message@, end as int)),
                Err(e) => HybridPirFrame::decoding(stream@, DEFAULT_FIELD_LIMIT as nat) == Err::<
                    (HybridPirFrame, int),
                    FrameError,
                >(e),
            },
    {
        Self::decode(stream, DEFAULT_FIELD_LIMIT)
    }
}

} // verus!
