//! The envelope of the measuring harness: it chooses one of three schemes,
//! sets the servers up with parameters and carries the messages of the
//! scheme chosen. Its frames follow the same rules as those of the protocol
//! itself: four-byte discriminants, counts in eight bytes, little-endian.

use vstd::prelude::*;
use crate::wire::FrameError;
use crate::wire::DEFAULT_FIELD_LIMIT;
use crate::wire::le_bytes;
use crate::wire::holds_at;
use crate::wire::spec_blob;
use crate::wire::spec_uint_at;
use crate::wire::spec_blob_at;
use crate::wire::spec_number_at;
use crate::wire::spec_flag;
use crate::wire::spec_begins;
use crate::wire::spec_continues;
use crate::wire::put_u32;
use crate::wire::put_u128;
use crate::wire::put_usize;
use crate::wire::put_bool;
use crate::wire::put_blob;
use crate::wire::u32_at;
use crate::wire::u128_at;
use crate::wire::blob_at;
use crate::wire::number_at;
use crate::wire::lemma_le_bytes_len;
use crate::wire::lemma_pow256_values;
use crate::wire::lemma_uint_at_reads;
use crate::wire::lemma_uint_at_holds;
use crate::wire::lemma_blob_at_reads;
use crate::wire::lemma_blob_at_holds;
use crate::wire::lemma_number_at_reads;
use crate::wire::lemma_number_at_holds;
use crate::wire::lemma_uint_at_continues;
use crate::wire::lemma_blob_at_continues;
use crate::types::HybridPirMessage;
use crate::types::HybridPirFrame;
use crate::bits::RaidPirQuery;
use crate::bits::spec_query_bits;
use crate::bits::spec_pack;
use crate::client::spec_frames;
use crate::client::spec_queries;
use crate::layout::spec_records;
use crate::wire::copy_bytes;

verus! {

/// The parameters that set a server up for one of the three schemes.
#[derive(Debug, Clone, Copy, PartialEq, Eq, Structural)]
pub enum BenchmarkParams {
    /// The single-server scheme on the whole database.
    SealPir { db_size: usize, element_size: usize, poly_degree: u32, log: u32, d: u32 },
    /// The multi-server scheme on the whole database.
    RaidPir {
        db_size: usize,
        element_size: usize,
        servers: usize,
        redundancy: usize,
        russians: bool,
    },
    /// The hybrid of both on the folded database.
    HybridPir {
        db_size: usize,
        element_size: usize,
        raidpir_servers: usize,
        raidpir_redundancy: usize,
        raidpir_size: usize,
        raidpir_russians: bool,
        sealpir_poly_degree: u32,
        sealpir_log: u32,
        sealpir_d: u32,
    },
}

impl BenchmarkParams {
    /// The discriminant of the variant.
    pub open spec fn tag(self) -> nat {
        match self {
            BenchmarkParams::SealPir { .. } => 0,
            BenchmarkParams::RaidPir { .. } => 1,
            BenchmarkParams::HybridPir { .. } => 2,
        }
    }

    /// The number of bytes that the fields of the variant with discriminant
    /// `tag` take.
    pub open spec fn fields_width(tag: nat) -> int {
        if tag == 0 {
            28
        } else if tag == 1 {
            33
        } else {
            53
        }
    }

    /// The fields of the variant, in their order: counts in eight bytes,
    /// parameters of the single-server scheme in four, a flag in one.
    pub open spec fn fields(self) -> Seq<u8> {
        match self {
            BenchmarkParams::SealPir { db_size, element_size, poly_degree, log, d } => {
                le_bytes(db_size as nat, 8) + le_bytes(element_size as nat, 8)
                    + le_bytes(poly_degree as nat, 4) + le_bytes(log as nat, 4)
                    + le_bytes(d as nat, 4)
            },
            BenchmarkParams::RaidPir { db_size, element_size, servers, redundancy, russians } => {
                le_bytes(db_size as nat, 8) + le_bytes(element_size as nat, 8)
                    + le_bytes(servers as nat, 8) + le_bytes(redundancy as nat, 8)
                    + le_bytes(spec_flag(russians), 1)
            },
            BenchmarkParams::HybridPir {
                db_size,
                element_size,
                raidpir_servers,
                raidpir_redundancy,
                raidpir_size,
                raidpir_russians,
                sealpir_poly_degree,
                sealpir_log,
                sealpir_d,
            } => {
                le_bytes(db_size as nat, 8) + le_bytes(element_size as nat, 8)
                    + le_bytes(raidpir_servers as nat, 8) + le_bytes(raidpir_redundancy as nat, 8)
                    + le_bytes(raidpir_size as nat, 8) + le_bytes(spec_flag(raidpir_russians), 1)
                    + le_bytes(sealpir_poly_degree as nat, 4) + le_bytes(sealpir_log as nat, 4)
                    + le_bytes(sealpir_d as nat, 4)
            },
        }
    }

    /// The parameters that the fields at `at` spell for the variant with
    /// discriminant `tag`, where the input holds all of them.
    pub open spec fn fields_at(tag: nat, bytes: Seq<u8>, at: int) -> Result<
        BenchmarkParams,
        FrameError,
    > {
        if tag == 0 {
            let db_size: nat = spec_number_at(bytes, at + 0, 8);
            let element_size: nat = spec_number_at(bytes, at + 8, 8);
            let poly_degree: nat = spec_number_at(bytes, at + 16, 4);
            let log: nat = spec_number_at(bytes, at + 20, 4);
            let d: nat = spec_number_at(bytes, at + 24, 4);
            if db_size > usize::MAX || element_size > usize::MAX {
                Err(FrameError::InvalidValue)
            } else {
                Ok(
                    BenchmarkParams::SealPir {
                        db_size: db_size as usize,
                        element_size: element_size as usize,
                        poly_degree: poly_degree as u32,
                        log: log as u32,
                        d: d as u32,
                    },
                )
            }
        } else if tag == 1 {
            let db_size: nat = spec_number_at(bytes, at + 0, 8);
            let element_size: nat = spec_number_at(bytes, at + 8, 8);
            let servers: nat = spec_number_at(bytes, at + 16, 8);
            let redundancy: nat = spec_number_at(bytes, at + 24, 8);
            let russians: nat = spec_number_at(bytes, at + 32, 1);
            if db_size > usize::MAX || element_size > usize::MAX || servers > usize::MAX
                || redundancy > usize::MAX || russians > 1 {
                Err(FrameError::InvalidValue)
            } else {
                Ok(
                    BenchmarkParams::RaidPir {
                        db_size: db_size as usize,
                        element_size: element_size as usize,
                        servers: servers as usize,
                        redundancy: redundancy as usize,
                        russians: russians == 1,
                    },
                )
            }
        } else {
            let db_size: nat = spec_number_at(bytes, at + 0, 8);
            let element_size: nat = spec_number_at(bytes, at + 8, 8);
            let raidpir_servers: nat = spec_number_at(bytes, at + 16, 8);
            let raidpir_redundancy: nat = spec_number_at(bytes, at + 24, 8);
            let raidpir_size: nat = spec_number_at(bytes, at + 32, 8);
            let raidpir_russians: nat = spec_number_at(bytes, at + 40, 1);
            let sealpir_poly_degree: nat = spec_number_at(bytes, at + 41, 4);
            let sealpir_log: nat = spec_number_at(bytes, at + 45, 4);
            let sealpir_d: nat = spec_number_at(bytes, at + 49, 4);
            if db_size > usize::MAX || element_size > usize::MAX || raidpir_servers > usize::MAX
                || raidpir_redundancy > usize::MAX || raidpir_size > usize::MAX
                || raidpir_russians > 1 {
                Err(FrameError::InvalidValue)
            } else {
                Ok(
                    BenchmarkParams::HybridPir {
                        db_size: db_size as usize,
                        element_size: element_size as usize,
                        raidpir_servers: raidpir_servers as usize,
                        raidpir_redundancy: raidpir_redundancy as usize,
                        raidpir_size: raidpir_size as usize,
                        raidpir_russians: raidpir_russians == 1,
                        sealpir_poly_degree: sealpir_poly_degree as u32,
                        sealpir_log: sealpir_log as u32,
                        sealpir_d: sealpir_d as u32,
                    },
                )
            }
        }
    }

    /// The frame of the parameters: the discriminant and the fields.
    pub open spec fn encoding(self) -> Seq<u8> {
        le_bytes(self.tag(), 4) + self.fields()
    }

    /// What decoding at offset `at` gives: the parameters and the offset
    /// behind their frame, or the reason for which there is none.
    pub open spec fn decoding_at(bytes: Seq<u8>, at: int) -> Result<
        (BenchmarkParams, int),
        FrameError,
    > {
        match spec_uint_at(bytes, at, 4) {
            Err(e) => Err(e),
            Ok((tag, fields)) => if tag > 2 {
                Err(FrameError::InvalidTag)
            } else if fields + Self::fields_width(tag) > usize::MAX {
                Err(FrameError::Oversized)
            } else if fields + Self::fields_width(tag) > bytes.len() {
                Err(FrameError::Incomplete { needed: (fields + Self::fields_width(tag)) as usize })
            } else {
                match Self::fields_at(tag, bytes, fields) {
                    Err(e) => Err(e),
                    Ok(params) => Ok((params, fields + Self::fields_width(tag))),
                }
            },
        }
    }

    /// The length of a frame.
    pub proof fn lemma_encoding_len(self)
        ensures
            self.encoding().len() == 4 + Self::fields_width(self.tag()),
    {
        lemma_le_bytes_len(self.tag(), 4);
        match self {
            BenchmarkParams::SealPir { db_size, element_size, poly_degree, log, d } => {
                lemma_le_bytes_len(db_size as nat, 8);
                lemma_le_bytes_len(element_size as nat, 8);
                lemma_le_bytes_len(poly_degree as nat, 4);
                lemma_le_bytes_len(log as nat, 4);
                lemma_le_bytes_len(d as nat, 4);
            },
            BenchmarkParams::RaidPir { db_size, element_size, servers, redundancy, russians } => {
                lemma_le_bytes_len(db_size as nat, 8);
                lemma_le_bytes_len(element_size as nat, 8);
                lemma_le_bytes_len(servers as nat, 8);
                lemma_le_bytes_len(redundancy as nat, 8);
                lemma_le_bytes_len(spec_flag(russians), 1);
            },
            BenchmarkParams::HybridPir {
                db_size,
                element_size,
                raidpir_servers,
                raidpir_redundancy,
                raidpir_size,
                raidpir_russians,
                sealpir_poly_degree,
                sealpir_log,
                sealpir_d,
            } => {
                lemma_le_bytes_len(db_size as nat, 8);
                lemma_le_bytes_len(element_size as nat, 8);
                lemma_le_bytes_len(raidpir_servers as nat, 8);
                lemma_le_bytes_len(raidpir_redundancy as nat, 8);
                lemma_le_bytes_len(raidpir_size as nat, 8);
                lemma_le_bytes_len(spec_flag(raidpir_russians), 1);
                lemma_le_bytes_len(sealpir_poly_degree as nat, 4);
                lemma_le_bytes_len(sealpir_log as nat, 4);
                lemma_le_bytes_len(sealpir_d as nat, 4);
            },
        }
    }

    /// Decoding gives back what was encoded: where the frame of these
    /// parameters stands at `at`, decoding at `at` gives them and the offset
    /// behind the frame, whatever follows.
    pub proof fn lemma_decoding_of_encoding(self, bytes: Seq<u8>, at: int)
        requires
            bytes.len() <= usize::MAX,
            holds_at(bytes, at, self.encoding()),
        ensures
            Self::decoding_at(bytes, at) == Ok::<(BenchmarkParams, int), FrameError>(
                (self, at + self.encoding().len()),
            ),
    {
        self.lemma_encoding_len();
        lemma_pow256_values();
        let frame: Seq<u8> = self.encoding();
        lemma_le_bytes_len(self.tag(), 4);
        assert(frame.subrange(0, 4) =~= le_bytes(self.tag(), 4));
        assert(bytes.subrange(at, at + 4) =~= frame.subrange(0, 4));
        lemma_uint_at_reads(bytes, at, self.tag(), 4);
        match self {
            BenchmarkParams::SealPir { db_size, element_size, poly_degree, log, d } => {
                lemma_le_bytes_len(db_size as nat, 8);
                lemma_le_bytes_len(element_size as nat, 8);
                lemma_le_bytes_len(poly_degree as nat, 4);
                lemma_le_bytes_len(log as nat, 4);
                lemma_le_bytes_len(d as nat, 4);
                assert(frame.subrange(4, 12) =~= le_bytes(db_size as nat, 8));
                lemma_number_at_reads(bytes, at, frame, 4, db_size as nat, 8);
                assert(frame.subrange(12, 20) =~= le_bytes(element_size as nat, 8));
                lemma_number_at_reads(bytes, at, frame, 12, element_size as nat, 8);
                assert(frame.subrange(20, 24) =~= le_bytes(poly_degree as nat, 4));
                lemma_number_at_reads(bytes, at, frame, 20, poly_degree as nat, 4);
                assert(frame.subrange(24, 28) =~= le_bytes(log as nat, 4));
                lemma_number_at_reads(bytes, at, frame, 24, log as nat, 4);
                assert(frame.subrange(28, 32) =~= le_bytes(d as nat, 4));
                lemma_number_at_reads(bytes, at, frame, 28, d as nat, 4);
                assert(Self::fields_at(0, bytes, at + 4) == Ok::<BenchmarkParams, FrameError>(
                    self,
                ));
            },
            BenchmarkParams::RaidPir { db_size, element_size, servers, redundancy, russians } => {
                lemma_le_bytes_len(db_size as nat, 8);
                lemma_le_bytes_len(element_size as nat, 8);
                lemma_le_bytes_len(servers as nat, 8);
                lemma_le_bytes_len(redundancy as nat, 8);
                lemma_le_bytes_len(spec_flag(russians), 1);
                assert(frame.subrange(4, 12) =~= le_bytes(db_size as nat, 8));
                lemma_number_at_reads(bytes, at, frame, 4, db_size as nat, 8);
                assert(frame.subrange(12, 20) =~= le_bytes(element_size as nat, 8));
                lemma_number_at_reads(bytes, at, frame, 12, element_size as nat, 8);
                assert(frame.subrange(20, 28) =~= le_bytes(servers as nat, 8));
                lemma_number_at_reads(bytes, at, frame, 20, servers as nat, 8);
                assert(frame.subrange(28, 36) =~= le_bytes(redundancy as nat, 8));
                lemma_number_at_reads(bytes, at, frame, 28, redundancy as nat, 8);
                assert(frame.subrange(36, 37) =~= le_bytes(spec_flag(russians), 1));
                lemma_number_at_reads(bytes, at, frame, 36, spec_flag(russians), 1);
                assert(Self::fields_at(1, bytes, at + 4) == Ok::<BenchmarkParams, FrameError>(
                    self,
                ));
            },
            BenchmarkParams::HybridPir {
                db_size,
                element_size,
                raidpir_servers,
                raidpir_redundancy,
                raidpir_size,
                raidpir_russians,
                sealpir_poly_degree,
                sealpir_log,
                sealpir_d,
            } => {
                lemma_le_bytes_len(db_size as nat, 8);
                lemma_le_bytes_len(element_size as nat, 8);
                lemma_le_bytes_len(raidpir_servers as nat, 8);
                lemma_le_bytes_len(raidpir_redundancy as nat, 8);
                lemma_le_bytes_len(raidpir_size as nat, 8);
                lemma_le_bytes_len(spec_flag(raidpir_russians), 1);
                lemma_le_bytes_len(sealpir_poly_degree as nat, 4);
                lemma_le_bytes_len(sealpir_log as nat, 4);
                lemma_le_bytes_len(sealpir_d as nat, 4);
                assert(frame.subrange(4, 12) =~= le_bytes(db_size as nat, 8));
                lemma_number_at_reads(bytes, at, frame, 4, db_size as nat, 8);
                assert(frame.subrange(12, 20) =~= le_bytes(element_size as nat, 8));
                lemma_number_at_reads(bytes, at, frame, 12, element_size as nat, 8);
                assert(frame.subrange(20, 28) =~= le_bytes(raidpir_servers as nat, 8));
                lemma_number_at_reads(bytes, at, frame, 20, raidpir_servers as nat, 8);
                assert(frame.subrange(28, 36) =~= le_bytes(raidpir_redundancy as nat, 8));
                lemma_number_at_reads(bytes, at, frame, 28, raidpir_redundancy as nat, 8);
                assert(frame.subrange(36, 44) =~= le_bytes(raidpir_size as nat, 8));
                lemma_number_at_reads(bytes, at, frame, 36, raidpir_size as nat, 8);
                assert(frame.subrange(44, 45) =~= le_bytes(spec_flag(raidpir_russians), 1));
                lemma_number_at_reads(bytes, at, frame, 44, spec_flag(raidpir_russians), 1);
                assert(frame.subrange(45, 49) =~= le_bytes(sealpir_poly_degree as nat, 4));
                lemma_number_at_reads(bytes, at, frame, 45, sealpir_poly_degree as nat, 4);
                assert(frame.subrange(49, 53) =~= le_bytes(sealpir_log as nat, 4));
                lemma_number_at_reads(bytes, at, frame, 49, sealpir_log as nat, 4);
                assert(frame.subrange(53, 57) =~= le_bytes(sealpir_d as nat, 4));
                lemma_number_at_reads(bytes, at, frame, 53, sealpir_d as nat, 4);
                assert(Self::fields_at(2, bytes, at + 4) == Ok::<BenchmarkParams, FrameError>(
                    self,
                ));
            },
        }
    }

    /// What was decoded is what stands there: the bytes from `at` to the
    /// offset returned are the frame of the parameters returned.
    pub proof fn lemma_encoding_of_decoding(bytes: Seq<u8>, at: int)
        requires
            0 <= at,
            Self::decoding_at(bytes, at) is Ok,
        ensures
            Self::decoding_at(bytes, at)->Ok_0.1 == at + Self::decoding_at(
                bytes,
                at,
            )->Ok_0.0.encoding().len(),
            holds_at(bytes, at, Self::decoding_at(bytes, at)->Ok_0.0.encoding()),
    {
        let params: BenchmarkParams = Self::decoding_at(bytes, at)->Ok_0.0;
        let end: int = Self::decoding_at(bytes, at)->Ok_0.1;
        params.lemma_encoding_len();
        lemma_pow256_values();
        lemma_uint_at_holds(bytes, at, 4);
        assert(spec_uint_at(bytes, at, 4)->Ok_0.0 == params.tag());
        let p: int = at + 4;
        match params {
            BenchmarkParams::SealPir { db_size, element_size, poly_degree, log, d } => {
                lemma_number_at_holds(bytes, p + 0, 8);
                lemma_le_bytes_len(db_size as nat, 8);
                lemma_number_at_holds(bytes, p + 8, 8);
                lemma_le_bytes_len(element_size as nat, 8);
                lemma_number_at_holds(bytes, p + 16, 4);
                lemma_le_bytes_len(poly_degree as nat, 4);
                lemma_number_at_holds(bytes, p + 20, 4);
                lemma_le_bytes_len(log as nat, 4);
                lemma_number_at_holds(bytes, p + 24, 4);
                lemma_le_bytes_len(d as nat, 4);
                assert(bytes.subrange(p + 0, p + 8) == le_bytes(db_size as nat, 8));
                assert(bytes.subrange(p + 8, p + 16) == le_bytes(element_size as nat, 8));
                assert(bytes.subrange(p + 16, p + 20) == le_bytes(poly_degree as nat, 4));
                assert(bytes.subrange(p + 20, p + 24) == le_bytes(log as nat, 4));
                assert(bytes.subrange(p + 24, p + 28) == le_bytes(d as nat, 4));
                assert(bytes.subrange(at, p) == le_bytes(params.tag(), 4));
                assert(bytes.subrange(at, end) =~= params.encoding());
            },
            BenchmarkParams::RaidPir { db_size, element_size, servers, redundancy, russians } => {
                lemma_number_at_holds(bytes, p + 0, 8);
                lemma_le_bytes_len(db_size as nat, 8);
                lemma_number_at_holds(bytes, p + 8, 8);
                lemma_le_bytes_len(element_size as nat, 8);
                lemma_number_at_holds(bytes, p + 16, 8);
                lemma_le_bytes_len(servers as nat, 8);
                lemma_number_at_holds(bytes, p + 24, 8);
                lemma_le_bytes_len(redundancy as nat, 8);
                lemma_number_at_holds(bytes, p + 32, 1);
                lemma_le_bytes_len(spec_flag(russians), 1);
                assert(bytes.subrange(p + 0, p + 8) == le_bytes(db_size as nat, 8));
                assert(bytes.subrange(p + 8, p + 16) == le_bytes(element_size as nat, 8));
                assert(bytes.subrange(p + 16, p + 24) == le_bytes(servers as nat, 8));
                assert(bytes.subrange(p + 24, p + 32) == le_bytes(redundancy as nat, 8));
                assert(bytes.subrange(p + 32, p + 33) == le_bytes(spec_flag(russians), 1));
                assert(bytes.subrange(at, p) == le_bytes(params.tag(), 4));
                assert(bytes.subrange(at, end) =~= params.encoding());
            },
            BenchmarkParams::HybridPir {
                db_size,
                element_size,
                raidpir_servers,
                raidpir_redundancy,
                raidpir_size,
                raidpir_russians,
                sealpir_poly_degree,
                sealpir_log,
                sealpir_d,
            } => {
                lemma_number_at_holds(bytes, p + 0, 8);
                lemma_le_bytes_len(db_size as nat, 8);
                lemma_number_at_holds(bytes, p + 8, 8);
                lemma_le_bytes_len(element_size as nat, 8);
                lemma_number_at_holds(bytes, p + 16, 8);
                lemma_le_bytes_len(raidpir_servers as nat, 8);
                lemma_number_at_holds(bytes, p + 24, 8);
                lemma_le_bytes_len(raidpir_redundancy as nat, 8);
                lemma_number_at_holds(bytes, p + 32, 8);
                lemma_le_bytes_len(raidpir_size as nat, 8);
                lemma_number_at_holds(bytes, p + 40, 1);
                lemma_le_bytes_len(spec_flag(raidpir_russians), 1);
                lemma_number_at_holds(bytes, p + 41, 4);
                lemma_le_bytes_len(sealpir_poly_degree as nat, 4);
                lemma_number_at_holds(bytes, p + 45, 4);
                lemma_le_bytes_len(sealpir_log as nat, 4);
                lemma_number_at_holds(bytes, p + 49, 4);
                lemma_le_bytes_len(sealpir_d as nat, 4);
                assert(bytes.subrange(p + 0, p + 8) == le_bytes(db_size as nat, 8));
                assert(bytes.subrange(p + 8, p + 16) == le_bytes(element_size as nat, 8));
                assert(bytes.subrange(p + 16, p + 24) == le_bytes(raidpir_servers as nat, 8));
                assert(bytes.subrange(p + 24, p + 32) == le_bytes(raidpir_redundancy as nat, 8));
                assert(bytes.subrange(p + 32, p + 40) == le_bytes(raidpir_size as nat, 8));
                assert(bytes.subrange(p + 40, p + 41) == le_bytes(spec_flag(raidpir_russians), 1));
                assert(bytes.subrange(p + 41, p + 45) == le_bytes(sealpir_poly_degree as nat, 4));
                assert(bytes.subrange(p + 45, p + 49) == le_bytes(sealpir_log as nat, 4));
                assert(bytes.subrange(p + 49, p + 53) == le_bytes(sealpir_d as nat, 4));
                assert(bytes.subrange(at, p) == le_bytes(params.tag(), 4));
                assert(bytes.subrange(at, end) =~= params.encoding());
            },
        }
    }

    /// Decoding from a longer input: parameters and a refusal stay as they
    /// are; a demand for more bytes stays as it is until the input reaches
    /// the length demanded, and never asks for a byte behind the frame's end.
    pub proof fn lemma_decoding_continues(bytes: Seq<u8>, longer: Seq<u8>, at: int)
        requires
            spec_begins(bytes, longer),
            0 <= at <= bytes.len(),
        ensures
            spec_continues(
                Self::decoding_at(bytes, at),
                Self::decoding_at(longer, at),
                bytes.len(),
                longer.len(),
            ),
    {
        lemma_uint_at_continues(bytes, longer, at, 4);
        if spec_uint_at(bytes, at, 4) is Ok {
            let tag: nat = spec_uint_at(bytes, at, 4)->Ok_0.0;
            let p: int = at + 4;
            let width: int = Self::fields_width(tag);
            if tag <= 2 && p + width <= bytes.len() {
                assert forall|offset: int, size: int|
                    0 <= offset && 0 <= size && offset + size <= width implies spec_number_at(
                    bytes,
                    p + offset,
                    size,
                ) == #[trigger] spec_number_at(longer, p + offset, size) by {
                    assert(longer.subrange(p + offset, p + offset + size) =~= bytes.subrange(
                        p + offset,
                        p + offset + size,
                    ));
                }
            }
        }
    }

    /// The parameters with which the single-server scheme is measured when
    /// nothing else is asked for.
    pub fn default_sealpir() -> (params: BenchmarkParams)
        ensures
            params == (BenchmarkParams::SealPir {
                db_size: 16384,
                element_size: 16,
                poly_degree: 2048,
                log: 12,
                d: 3,
            }),
    {
        BenchmarkParams::SealPir {
            db_size: 16384,
            element_size: 16,
            poly_degree: 2048,
            log: 12,
            d: 3,
        }
    }

    /// The parameters with which the multi-server scheme is measured when
    /// nothing else is asked for.
    pub fn default_raidpir() -> (params: BenchmarkParams)
        ensures
            params == (BenchmarkParams::RaidPir {
                db_size: 16384,
                element_size: 16,
                servers: 2,
                redundancy: 2,
                russians: false,
            }),
    {
        BenchmarkParams::RaidPir {
            db_size: 16384,
            element_size: 16,
            servers: 2,
            redundancy: 2,
            russians: false,
        }
    }

    /// The parameters with which the hybrid scheme is measured when nothing
    /// else is asked for.
    pub fn default_hybridpir() -> (params: BenchmarkParams)
        ensures
            params == (BenchmarkParams::HybridPir {
                db_size: 16384,
                element_size: 16,
                raidpir_servers: 2,
                raidpir_redundancy: 2,
                raidpir_size: 1024,
                raidpir_russians: false,
                sealpir_poly_degree: 2048,
                sealpir_log: 24,
                sealpir_d: 1,
            }),
    {
        BenchmarkParams::HybridPir {
            db_size: 16384,
            element_size: 16,
            raidpir_servers: 2,
            raidpir_redundancy: 2,
            raidpir_size: 1024,
            raidpir_russians: false,
            sealpir_poly_degree: 2048,
            sealpir_log: 24,
            sealpir_d: 1,
        }
    }

    /// Number of records of the database.
    pub open spec fn spec_db_size(self) -> usize {
        match self {
            BenchmarkParams::SealPir { db_size, .. } => db_size,
            BenchmarkParams::RaidPir { db_size, .. } => db_size,
            BenchmarkParams::HybridPir { db_size, .. } => db_size,
        }
    }

    /// The same parameters for a database of `records` records of `width`
    /// bytes.
    pub open spec fn spec_with_shape(self, records: usize, width: usize) -> BenchmarkParams {
        match self {
            BenchmarkParams::SealPir { db_size, element_size, poly_degree, log, d } => {
                BenchmarkParams::SealPir {
                    db_size: records,
                    element_size: width,
                    poly_degree,
                    log,
                    d,
                }
            },
            BenchmarkParams::RaidPir { db_size, element_size, servers, redundancy, russians } => {
                BenchmarkParams::RaidPir {
                    db_size: records,
                    element_size: width,
                    servers,
                    redundancy,
                    russians,
                }
            },
            BenchmarkParams::HybridPir {
                db_size,
                element_size,
                raidpir_servers,
                raidpir_redundancy,
                raidpir_size,
                raidpir_russians,
                sealpir_poly_degree,
                sealpir_log,
                sealpir_d,
            } => BenchmarkParams::HybridPir {
                db_size: records,
                element_size: width,
                raidpir_servers,
                raidpir_redundancy,
                raidpir_size,
                raidpir_russians,
                sealpir_poly_degree,
                sealpir_log,
                sealpir_d,
            },
        }
    }

    /// The same parameters with the database folded into `rows` rows, for
    /// the hybrid scheme; the other schemes do not fold.
    pub open spec fn spec_with_rows(self, rows: usize) -> BenchmarkParams {
        match self {
            BenchmarkParams::HybridPir {
                db_size,
                element_size,
                raidpir_servers,
                raidpir_redundancy,
                raidpir_size,
                raidpir_russians,
                sealpir_poly_degree,
                sealpir_log,
                sealpir_d,
            } => BenchmarkParams::HybridPir {
                db_size,
                element_size,
                raidpir_servers,
                raidpir_redundancy,
                raidpir_size: rows,
                raidpir_russians,
                sealpir_poly_degree,
                sealpir_log,
                sealpir_d,
            },
            _ => self,
        }
    }

    /// Number of records of the database.
    pub fn db_size(&self) -> (n: usize)
        ensures
            n == self.spec_db_size(),
    {
        match *self {
            BenchmarkParams::SealPir { db_size, .. } => db_size,
            BenchmarkParams::RaidPir { db_size, .. } => db_size,
            BenchmarkParams::HybridPir { db_size, .. } => db_size,
        }
    }

    /// The index of the record that a measurement asks for: the one in the
    /// middle of the database.
    pub fn index(&self) -> (index: usize)
        ensures
            index == self.spec_db_size() / 2,
    {
        self.db_size() / 2
    }

    /// The same parameters for a database of `records` records of `width`
    /// bytes.
    pub fn with_shape(&self, records: usize, width: usize) -> (params: BenchmarkParams)
        ensures
            params == self.spec_with_shape(records, width),
    {
        match *self {
            BenchmarkParams::SealPir { db_size, element_size, poly_degree, log, d } => {
                BenchmarkParams::SealPir {
                    db_size: records,
                    element_size: width,
                    poly_degree,
                    log,
                    d,
                }
            },
            BenchmarkParams::RaidPir { db_size, element_size, servers, redundancy, russians } => {
                BenchmarkParams::RaidPir {
                    db_size: records,
                    element_size: width,
                    servers,
                    redundancy,
                    russians,
                }
            },
            BenchmarkParams::HybridPir {
                db_size,
                element_size,
                raidpir_servers,
                raidpir_redundancy,
                raidpir_size,
                raidpir_russians,
                sealpir_poly_degree,
                sealpir_log,
                sealpir_d,
            } => BenchmarkParams::HybridPir {
                db_size: records,
                element_size: width,
                raidpir_servers,
                raidpir_redundancy,
                raidpir_size,
                raidpir_russians,
                sealpir_poly_degree,
                sealpir_log,
                sealpir_d,
            },
        }
    }

    /// The same parameters with the database folded into `rows` rows, for
    /// the hybrid scheme; the other schemes do not fold.
    pub fn with_rows(&self, rows: usize) -> (params: BenchmarkParams)
        ensures
            params == self.spec_with_rows(rows),
    {
        match *self {
            BenchmarkParams::HybridPir {
                db_size,
                element_size,
                raidpir_servers,
                raidpir_redundancy,
                raidpir_size,
                raidpir_russians,
                sealpir_poly_degree,
                sealpir_log,
                sealpir_d,
            } => BenchmarkParams::HybridPir {
                db_size,
                element_size,
                raidpir_servers,
                raidpir_redundancy,
                raidpir_size: rows,
                raidpir_russians,
                sealpir_poly_degree,
                sealpir_log,
                sealpir_d,
            },
            _ => *self,
        }
    }

    /// Appends the frame of these parameters to `stream`.
    pub fn write_to(&self, stream: &mut Vec<u8>)
        ensures
            final(stream)@ == old(stream)@ + self.encoding(),
    {
        match *self {
            BenchmarkParams::SealPir { db_size, element_size, poly_degree, log, d } => {
                put_u32(stream, 0);
                put_usize(stream, db_size);
                put_usize(stream, element_size);
                put_u32(stream, poly_degree);
                put_u32(stream, log);
                put_u32(stream, d);
            },
            BenchmarkParams::RaidPir { db_size, element_size, servers, redundancy, russians } => {
                put_u32(stream, 1);
                put_usize(stream, db_size);
                put_usize(stream, element_size);
                put_usize(stream, servers);
                put_usize(stream, redundancy);
                put_bool(stream, russians);
            },
            BenchmarkParams::HybridPir {
                db_size,
                element_size,
                raidpir_servers,
                raidpir_redundancy,
                raidpir_size,
                raidpir_russians,
                sealpir_poly_degree,
                sealpir_log,
                sealpir_d,
            } => {
                put_u32(stream, 2);
                put_usize(stream, db_size);
                put_usize(stream, element_size);
                put_usize(stream, raidpir_servers);
                put_usize(stream, raidpir_redundancy);
                put_usize(stream, raidpir_size);
                put_bool(stream, raidpir_russians);
                put_u32(stream, sealpir_poly_degree);
                put_u32(stream, sealpir_log);
                put_u32(stream, sealpir_d);
            },
        }
        assert(stream@ =~= old(stream)@ + self.encoding());
    }

    /// Decodes the frame that starts at offset `at` of `bytes`. Returns the
    /// parameters and the offset behind their frame.
    pub fn decode_at(bytes: &[u8], at: usize) -> (r: Result<(BenchmarkParams, usize), FrameError>)
        requires
            at <= bytes.len(),
        ensures
            match r {
                Ok((params, end)) => Self::decoding_at(bytes@, at as int) == Ok::<
                    (BenchmarkParams, int),
                    FrameError,
                >((params, end as int)),
                Err(e) => Self::decoding_at(bytes@, at as int) == Err::<
                    (BenchmarkParams, int),
                    FrameError,
                >(e),
            },
    {
        let (tag, fields) = match u32_at(bytes, at) {
            Err(e) => { return Err(e); },
            Ok(read) => read,
        };
        if tag > 2 {
            return Err(FrameError::InvalidTag);
        }
        let width: usize = if tag == 0 {
            28
        } else if tag == 1 {
            33
        } else {
            53
        };
        if width > usize::MAX - fields {
            return Err(FrameError::Oversized);
        }
        let end: usize = fields + width;
        if end > bytes.len() {
            return Err(FrameError::Incomplete { needed: end });
        }
        proof {
            lemma_pow256_values();
        }
        if tag == 0 {
            let db_size: u128 = number_at(bytes, fields + 0, 8);
            let element_size: u128 = number_at(bytes, fields + 8, 8);
            let poly_degree: u128 = number_at(bytes, fields + 16, 4);
            let log: u128 = number_at(bytes, fields + 20, 4);
            let d: u128 = number_at(bytes, fields + 24, 4);
            if db_size > usize::MAX as u128 || element_size > usize::MAX as u128 {
                return Err(FrameError::InvalidValue);
            }
            Ok(
                (
                    BenchmarkParams::SealPir {
                        db_size: db_size as usize,
                        element_size: element_size as usize,
                        poly_degree: poly_degree as u32,
                        log: log as u32,
                        d: d as u32,
                    },
                    end,
                ),
            )
        } else if tag == 1 {
            let db_size: u128 = number_at(bytes, fields + 0, 8);
            let element_size: u128 = number_at(bytes, fields + 8, 8);
            let servers: u128 = number_at(bytes, fields + 16, 8);
            let redundancy: u128 = number_at(bytes, fields + 24, 8);
            let russians: u128 = number_at(bytes, fields + 32, 1);
            if db_size > usize::MAX as u128 || element_size > usize::MAX as u128
                || servers > usize::MAX as u128 || redundancy > usize::MAX as u128 || russians > 1 {
                return Err(FrameError::InvalidValue);
            }
            Ok(
                (
                    BenchmarkParams::RaidPir {
                        db_size: db_size as usize,
                        element_size: element_size as usize,
                        servers: servers as usize,
                        redundancy: redundancy as usize,
                        russians: russians == 1,
                    },
                    end,
                ),
            )
        } else {
            let db_size: u128 = number_at(bytes, fields + 0, 8);
            let element_size: u128 = number_at(bytes, fields + 8, 8);
            let raidpir_servers: u128 = number_at(bytes, fields + 16, 8);
            let raidpir_redundancy: u128 = number_at(bytes, fields + 24, 8);
            let raidpir_size: u128 = number_at(bytes, fields + 32, 8);
            let raidpir_russians: u128 = number_at(bytes, fields + 40, 1);
            let sealpir_poly_degree: u128 = number_at(bytes, fields + 41, 4);
            let sealpir_log: u128 = number_at(bytes, fields + 45, 4);
            let sealpir_d: u128 = number_at(bytes, fields + 49, 4);
            if db_size > usize::MAX as u128 || element_size > usize::MAX as u128
                || raidpir_servers > usize::MAX as u128 || raidpir_redundancy > usize::MAX as u128
                || raidpir_size > usize::MAX as u128 || raidpir_russians > 1 {
                return Err(FrameError::InvalidValue);
            }
            Ok(
                (
                    BenchmarkParams::HybridPir {
                        db_size: db_size as usize,
                        element_size: element_size as usize,
                        raidpir_servers: raidpir_servers as usize,
                        raidpir_redundancy: raidpir_redundancy as usize,
                        raidpir_size: raidpir_size as usize,
                        raidpir_russians: raidpir_russians == 1,
                        sealpir_poly_degree: sealpir_poly_degree as u32,
                        sealpir_log: sealpir_log as u32,
                        sealpir_d: sealpir_d as u32,
                    },
                    end,
                ),
            )
        }
    }
}

/// One message of the multi-server scheme on its own.
#[derive(Debug, Clone, PartialEq, Eq)]
pub enum RaidPirMessage {
    /// Opens the exchange; sent by the client.
    Hello,
    /// A fresh seed; sent by the server.
    Seed(u128),
    /// The query for this server; sent by the client.
    Query(Vec<u8>),
    /// The server's contribution; sent by the server.
    Response(Vec<u8>),
}

/// What a [`RaidPirMessage`] holds.
pub enum RaidPirFrame {
    Hello,
    Seed(u128),
    Query(Seq<u8>),
    Response(Seq<u8>),
}

impl View for RaidPirMessage {
    type V = RaidPirFrame;

    open spec fn view(&self) -> RaidPirFrame {
        match *self {
            RaidPirMessage::Hello => RaidPirFrame::Hello,
            RaidPirMessage::Seed(seed) => RaidPirFrame::Seed(seed),
            RaidPirMessage::Query(query) => RaidPirFrame::Query(query@),
            RaidPirMessage::Response(reply) => RaidPirFrame::Response(reply@),
        }
    }
}

impl RaidPirFrame {
    /// The discriminant of the variant.
    pub open spec fn tag(self) -> nat {
        match self {
            RaidPirFrame::Hello => 0,
            RaidPirFrame::Seed(_) => 1,
            RaidPirFrame::Query(_) => 2,
            RaidPirFrame::Response(_) => 3,
        }
    }

    /// The frame of a message.
    pub open spec fn encoding(self) -> Seq<u8> {
        match self {
            RaidPirFrame::Hello => le_bytes(0, 4),
            RaidPirFrame::Seed(seed) => le_bytes(1, 4) + le_bytes(seed as nat, 16),
            RaidPirFrame::Query(query) => le_bytes(2, 4) + spec_blob(query),
            RaidPirFrame::Response(reply) => le_bytes(3, 4) + spec_blob(reply),
        }
    }

    /// No field is longer than `limit`.
    pub open spec fn fits(self, limit: nat) -> bool {
        match self {
            RaidPirFrame::Hello => true,
            RaidPirFrame::Seed(_) => true,
            RaidPirFrame::Query(query) => query.len() <= limit,
            RaidPirFrame::Response(reply) => reply.len() <= limit,
        }
    }

    /// What decoding at offset `at` gives: the message and the offset behind
    /// its frame, or the reason for which there is none.
    pub open spec fn decoding_at(bytes: Seq<u8>, at: int, limit: nat) -> Result<
        (RaidPirFrame, int),
        FrameError,
    > {
        match spec_uint_at(bytes, at, 4) {
            Err(e) => Err(e),
            Ok((tag, fields)) => if tag == 0 {
                Ok((RaidPirFrame::Hello, fields))
            } else if tag == 1 {
                match spec_uint_at(bytes, fields, 16) {
                    Err(e) => Err(e),
                    Ok((seed, end)) => Ok((RaidPirFrame::Seed(seed as u128), end)),
                }
            } else if tag == 2 {
                match spec_blob_at(bytes, fields, limit) {
                    Err(e) => Err(e),
                    Ok((query, end)) => Ok((RaidPirFrame::Query(query), end)),
                }
            } else if tag == 3 {
                match spec_blob_at(bytes, fields, limit) {
                    Err(e) => Err(e),
                    Ok((reply, end)) => Ok((RaidPirFrame::Response(reply), end)),
                }
            } else {
                Err(FrameError::InvalidTag)
            },
        }
    }

    /// The length of a frame.
    pub proof fn lemma_encoding_len(self)
        ensures
            self.encoding().len() == match self {
                RaidPirFrame::Hello => 4,
                RaidPirFrame::Seed(_) => 20,
                RaidPirFrame::Query(query) => 12 + query.len(),
                RaidPirFrame::Response(reply) => 12 + reply.len(),
            },
    {
        lemma_le_bytes_len(self.tag(), 4);
        match self {
            RaidPirFrame::Hello => {},
            RaidPirFrame::Seed(seed) => {
                lemma_le_bytes_len(seed as nat, 16);
            },
            RaidPirFrame::Query(query) => {
                lemma_le_bytes_len(query.len(), 8);
            },
            RaidPirFrame::Response(reply) => {
                lemma_le_bytes_len(reply.len(), 8);
            },
        }
    }

    /// Decoding gives back what was encoded: where the frame of a message
    /// whose fields respect the ceiling stands at `at`, decoding at `at`
    /// gives that message and the offset behind the frame, whatever follows.
    pub proof fn lemma_decoding_of_encoding(self, bytes: Seq<u8>, at: int, limit: nat)
        requires
            bytes.len() <= usize::MAX,
            self.fits(limit),
            holds_at(bytes, at, self.encoding()),
        ensures
            Self::decoding_at(bytes, at, limit) == Ok::<(RaidPirFrame, int), FrameError>(
                (self, at + self.encoding().len()),
            ),
    {
        self.lemma_encoding_len();
        lemma_pow256_values();
        let frame: Seq<u8> = self.encoding();
        lemma_le_bytes_len(self.tag(), 4);
        assert(bytes.subrange(at, at + 4) =~= frame.subrange(0, 4));
        assert(frame.subrange(0, 4) =~= le_bytes(self.tag(), 4));
        lemma_uint_at_reads(bytes, at, self.tag(), 4);
        let a: int = at + 4;
        match self {
            RaidPirFrame::Hello => {},
            RaidPirFrame::Seed(seed) => {
                lemma_le_bytes_len(seed as nat, 16);
                assert(bytes.subrange(a, a + 16) =~= frame.subrange(4, 20));
                assert(frame.subrange(4, 20) =~= le_bytes(seed as nat, 16));
                lemma_uint_at_reads(bytes, a, seed as nat, 16);
            },
            RaidPirFrame::Query(query) => {
                lemma_le_bytes_len(query.len(), 8);
                let b: int = a + 8 + query.len();
                assert(bytes.subrange(a, b) =~= frame.subrange(a - at, b - at));
                assert(frame.subrange(a - at, b - at) =~= spec_blob(query));
                lemma_blob_at_reads(bytes, a, query, limit);
            },
            RaidPirFrame::Response(reply) => {
                lemma_le_bytes_len(reply.len(), 8);
                let b: int = a + 8 + reply.len();
                assert(bytes.subrange(a, b) =~= frame.subrange(a - at, b - at));
                assert(frame.subrange(a - at, b - at) =~= spec_blob(reply));
                lemma_blob_at_reads(bytes, a, reply, limit);
            },
        }
    }

    /// What was decoded is what stands there: the bytes from `at` to the
    /// offset returned are the frame of the message returned, and its fields
    /// respect the ceiling.
    pub proof fn lemma_encoding_of_decoding(bytes: Seq<u8>, at: int, limit: nat)
        requires
            0 <= at,
            Self::decoding_at(bytes, at, limit) is Ok,
        ensures
            Self::decoding_at(bytes, at, limit)->Ok_0.0.fits(limit),
            Self::decoding_at(bytes, at, limit)->Ok_0.1 == at + Self::decoding_at(
                bytes,
                at,
                limit,
            )->Ok_0.0.encoding().len(),
            holds_at(bytes, at, Self::decoding_at(bytes, at, limit)->Ok_0.0.encoding()),
    {
        let message: RaidPirFrame = Self::decoding_at(bytes, at, limit)->Ok_0.0;
        let end: int = Self::decoding_at(bytes, at, limit)->Ok_0.1;
        message.lemma_encoding_len();
        lemma_pow256_values();
        lemma_uint_at_holds(bytes, at, 4);
        assert(spec_uint_at(bytes, at, 4)->Ok_0.0 == message.tag());
        let a: int = at + 4;
        match message {
            RaidPirFrame::Hello => {
                assert(holds_at(bytes, at, message.encoding()));
            },
            RaidPirFrame::Seed(seed) => {
                lemma_uint_at_holds(bytes, a, 16);
                lemma_le_bytes_len(seed as nat, 16);
                assert(bytes.subrange(at, end) =~= bytes.subrange(at, a) + bytes.subrange(a, end));
                assert(holds_at(bytes, at, message.encoding()));
            },
            RaidPirFrame::Query(query) => {
                lemma_blob_at_holds(bytes, a, limit);
                lemma_le_bytes_len(query.len(), 8);
                assert(bytes.subrange(at, end) =~= bytes.subrange(at, a) + bytes.subrange(a, end));
                assert(holds_at(bytes, at, message.encoding()));
            },
            RaidPirFrame::Response(reply) => {
                lemma_blob_at_holds(bytes, a, limit);
                lemma_le_bytes_len(reply.len(), 8);
                assert(bytes.subrange(at, end) =~= bytes.subrange(at, a) + bytes.subrange(a, end));
                assert(holds_at(bytes, at, message.encoding()));
            },
        }
    }

    /// Decoding from a longer input: a message and a refusal stay as they
    /// are; a demand for more bytes stays as it is until the input reaches
    /// the length demanded, and never asks for a byte behind the frame's end.
    pub proof fn lemma_decoding_continues(bytes: Seq<u8>, longer: Seq<u8>, at: int, limit: nat)
        requires
            spec_begins(bytes, longer),
            0 <= at <= bytes.len(),
        ensures
            spec_continues(
                Self::decoding_at(bytes, at, limit),
                Self::decoding_at(longer, at, limit),
                bytes.len(),
                longer.len(),
            ),
    {
        lemma_uint_at_continues(bytes, longer, at, 4);
        let a: int = at + 4;
        if spec_uint_at(bytes, at, 4) is Ok {
            let tag: nat = spec_uint_at(bytes, at, 4)->Ok_0.0;
            if tag == 1 {
                lemma_uint_at_continues(bytes, longer, a, 16);
            } else if tag == 2 || tag == 3 {
                lemma_blob_at_continues(bytes, longer, a, limit);
            }
        }
    }
}

impl RaidPirMessage {
    /// A copy of this message.
    pub fn duplicate(&self) -> (copy: RaidPirMessage)
        ensures
            copy@ == self@,
    {
        match self {
            RaidPirMessage::Hello => RaidPirMessage::Hello,
            RaidPirMessage::Seed(seed) => RaidPirMessage::Seed(*seed),
            RaidPirMessage::Query(query) => RaidPirMessage::Query(copy_bytes(query)),
            RaidPirMessage::Response(reply) => RaidPirMessage::Response(copy_bytes(reply)),
        }
    }

    /// Appends the frame of this message to `stream`.
    pub fn write_to(&self, stream: &mut Vec<u8>)
        ensures
            final(stream)@ == old(stream)@ + self@.encoding(),
    {
        match self {
            RaidPirMessage::Hello => {
                put_u32(stream, 0);
            },
            RaidPirMessage::Seed(seed) => {
                put_u32(stream, 1);
                put_u128(stream, *seed);
            },
            RaidPirMessage::Query(query) => {
                put_u32(stream, 2);
                put_blob(stream, query.as_slice());
            },
            RaidPirMessage::Response(reply) => {
                put_u32(stream, 3);
                put_blob(stream, reply.as_slice());
            },
        }
        assert(stream@ =~= old(stream)@ + self@.encoding());
    }

    /// Decodes the frame that starts at offset `at` of `bytes`, refusing a
    /// field longer than `limit`. Returns the message and the offset behind
    /// its frame.
    pub fn decode_at(bytes: &[u8], at: usize, limit: usize) -> (r: Result<
        (RaidPirMessage, usize),
        FrameError,
    >)
        requires
            at <= bytes.len(),
        ensures
            match r {
                Ok((message, end)) => RaidPirFrame::decoding_at(bytes@, at as int, limit as nat)
                    == Ok::<(RaidPirFrame, int), FrameError>((message@, end as int)),
                Err(e) => RaidPirFrame::decoding_at(bytes@, at as int, limit as nat) == Err::<
                    (RaidPirFrame, int),
                    FrameError,
                >(e),
            },
    {
        let (tag, fields) = match u32_at(bytes, at) {
            Err(e) => { return Err(e); },
            Ok(read) => read,
        };
        if tag == 0 {
            Ok((RaidPirMessage::Hello, fields))
        } else if tag == 1 {
            match u128_at(bytes, fields) {
                Err(e) => Err(e),
                Ok((seed, end)) => Ok((RaidPirMessage::Seed(seed), end)),
            }
        } else if tag == 2 {
            match blob_at(bytes, fields, limit) {
                Err(e) => Err(e),
                Ok((query, end)) => Ok((RaidPirMessage::Query(query), end)),
            }
        } else if tag == 3 {
            match blob_at(bytes, fields, limit) {
                Err(e) => Err(e),
                Ok((reply, end)) => Ok((RaidPirMessage::Response(reply), end)),
            }
        } else {
            Err(FrameError::InvalidTag)
        }
    }
}

/// One message of the single-server scheme on its own.
#[derive(Debug, Clone, PartialEq, Eq)]
pub enum SealPirMessage {
    /// The client's evaluation key and its query.
    Query(Vec<u8>, Vec<u8>),
    /// The server's reply.
    Response(Vec<u8>),
}

/// What a [`SealPirMessage`] holds.
pub enum SealPirFrame {
    Query(Seq<u8>, Seq<u8>),
    Response(Seq<u8>),
}

impl View for SealPirMessage {
    type V = SealPirFrame;

    open spec fn view(&self) -> SealPirFrame {
        match *self {
            SealPirMessage::Query(key, query) => SealPirFrame::Query(key@, query@),
            SealPirMessage::Response(reply) => SealPirFrame::Response(reply@),
        }
    }
}

impl SealPirFrame {
    /// The discriminant of the variant.
    pub open spec fn tag(self) -> nat {
        match self {
            SealPirFrame::Query(_, _) => 0,
            SealPirFrame::Response(_) => 1,
        }
    }

    /// The frame of a message.
    pub open spec fn encoding(self) -> Seq<u8> {
        match self {
            SealPirFrame::Query(key, query) => le_bytes(0, 4) + spec_blob(key) + spec_blob(query),
            SealPirFrame::Response(reply) => le_bytes(1, 4) + spec_blob(reply),
        }
    }

    /// No field is longer than `limit`.
    pub open spec fn fits(self, limit: nat) -> bool {
        match self {
            SealPirFrame::Query(key, query) => key.len() <= limit && query.len() <= limit,
            SealPirFrame::Response(reply) => reply.len() <= limit,
        }
    }

    /// What decoding at offset `at` gives: the message and the offset behind
    /// its frame, or the reason for which there is none.
    pub open spec fn decoding_at(bytes: Seq<u8>, at: int, limit: nat) -> Result<
        (SealPirFrame, int),
        FrameError,
    > {
        match spec_uint_at(bytes, at, 4) {
            Err(e) => Err(e),
            Ok((tag, fields)) => if tag == 0 {
                match spec_blob_at(bytes, fields, limit) {
                    Err(e) => Err(e),
                    Ok((key, second)) => match spec_blob_at(bytes, second, limit) {
                        Err(e) => Err(e),
                        Ok((query, end)) => Ok((SealPirFrame::Query(key, query), end)),
                    },
                }
            } else if tag == 1 {
                match spec_blob_at(bytes, fields, limit) {
                    Err(e) => Err(e),
                    Ok((reply, end)) => Ok((SealPirFrame::Response(reply), end)),
                }
            } else {
                Err(FrameError::InvalidTag)
            },
        }
    }

    /// The length of a frame.
    pub proof fn lemma_encoding_len(self)
        ensures
            self.encoding().len() == match self {
                SealPirFrame::Query(key, query) => 20 + key.len() + query.len(),
                SealPirFrame::Response(reply) => 12 + reply.len(),
            },
    {
        lemma_le_bytes_len(self.tag(), 4);
        match self {
            SealPirFrame::Query(key, query) => {
                lemma_le_bytes_len(key.len(), 8);
                lemma_le_bytes_len(query.len(), 8);
            },
            SealPirFrame::Response(reply) => {
                lemma_le_bytes_len(reply.len(), 8);
            },
        }
    }

    /// Decoding gives back what was encoded: where the frame of a message
    /// whose fields respect the ceiling stands at `at`, decoding at `at`
    /// gives that message and the offset behind the frame, whatever follows.
    pub proof fn lemma_decoding_of_encoding(self, bytes: Seq<u8>, at: int, limit: nat)
        requires
            bytes.len() <= usize::MAX,
            self.fits(limit),
            holds_at(bytes, at, self.encoding()),
        ensures
            Self::decoding_at(bytes, at, limit) == Ok::<(SealPirFrame, int), FrameError>(
                (self, at + self.encoding().len()),
            ),
    {
        self.lemma_encoding_len();
        lemma_pow256_values();
        let frame: Seq<u8> = self.encoding();
        lemma_le_bytes_len(self.tag(), 4);
        assert(bytes.subrange(at, at + 4) =~= frame.subrange(0, 4));
        assert(frame.subrange(0, 4) =~= le_bytes(self.tag(), 4));
        lemma_uint_at_reads(bytes, at, self.tag(), 4);
        let a: int = at + 4;
        match self {
            SealPirFrame::Query(key, query) => {
                lemma_le_bytes_len(key.len(), 8);
                lemma_le_bytes_len(query.len(), 8);
                let b: int = a + 8 + key.len();
                let c: int = b + 8 + query.len();
                assert(bytes.subrange(a, b) =~= frame.subrange(a - at, b - at));
                assert(frame.subrange(a - at, b - at) =~= spec_blob(key));
                assert(bytes.subrange(b, c) =~= frame.subrange(b - at, c - at));
                assert(frame.subrange(b - at, c - at) =~= spec_blob(query));
                lemma_blob_at_reads(bytes, a, key, limit);
                lemma_blob_at_reads(bytes, b, query, limit);
            },
            SealPirFrame::Response(reply) => {
                lemma_le_bytes_len(reply.len(), 8);
                let b: int = a + 8 + reply.len();
                assert(bytes.subrange(a, b) =~= frame.subrange(a - at, b - at));
                assert(frame.subrange(a - at, b - at) =~= spec_blob(reply));
                lemma_blob_at_reads(bytes, a, reply, limit);
            },
        }
    }

    /// What was decoded is what stands there: the bytes from `at` to the
    /// offset returned are the frame of the message returned, and its fields
    /// respect the ceiling.
    pub proof fn lemma_encoding_of_decoding(bytes: Seq<u8>, at: int, limit: nat)
        requires
            0 <= at,
            Self::decoding_at(bytes, at, limit) is Ok,
        ensures
            Self::decoding_at(bytes, at, limit)->Ok_0.0.fits(limit),
            Self::decoding_at(bytes, at, limit)->Ok_0.1 == at + Self::decoding_at(
                bytes,
                at,
                limit,
            )->Ok_0.0.encoding().len(),
            holds_at(bytes, at, Self::decoding_at(bytes, at, limit)->Ok_0.0.encoding()),
    {
        let message: SealPirFrame = Self::decoding_at(bytes, at, limit)->Ok_0.0;
        let end: int = Self::decoding_at(bytes, at, limit)->Ok_0.1;
        message.lemma_encoding_len();
        lemma_pow256_values();
        lemma_uint_at_holds(bytes, at, 4);
        assert(spec_uint_at(bytes, at, 4)->Ok_0.0 == message.tag());
        let a: int = at + 4;
        match message {
            SealPirFrame::Query(key, query) => {
                lemma_blob_at_holds(bytes, a, limit);
                let b: int = a + 8 + key.len();
                lemma_blob_at_holds(bytes, b, limit);
                lemma_le_bytes_len(key.len(), 8);
                lemma_le_bytes_len(query.len(), 8);
                assert(bytes.subrange(at, end) =~= bytes.subrange(at, a) + bytes.subrange(a, b)
                    + bytes.subrange(b, end));
                assert(holds_at(bytes, at, message.encoding()));
            },
            SealPirFrame::Response(reply) => {
                lemma_blob_at_holds(bytes, a, limit);
                lemma_le_bytes_len(reply.len(), 8);
                assert(bytes.subrange(at, end) =~= bytes.subrange(at, a) + bytes.subrange(a, end));
                assert(holds_at(bytes, at, message.encoding()));
            },
        }
    }

    /// Decoding from a longer input: a message and a refusal stay as they
    /// are; a demand for more bytes stays as it is until the input reaches
    /// the length demanded, and never asks for a byte behind the frame's end.
    pub proof fn lemma_decoding_continues(bytes: Seq<u8>, longer: Seq<u8>, at: int, limit: nat)
        requires
            spec_begins(bytes, longer),
            0 <= at <= bytes.len(),
        ensures
            spec_continues(
                Self::decoding_at(bytes, at, limit),
                Self::decoding_at(longer, at, limit),
                bytes.len(),
                longer.len(),
            ),
    {
        lemma_uint_at_continues(bytes, longer, at, 4);
        let a: int = at + 4;
        if spec_uint_at(bytes, at, 4) is Ok {
            let tag: nat = spec_uint_at(bytes, at, 4)->Ok_0.0;
            if tag == 1 {
                lemma_blob_at_continues(bytes, longer, a, limit);
            } else if tag == 0 {
                lemma_blob_at_continues(bytes, longer, a, limit);
                if spec_blob_at(bytes, a, limit) is Ok {
                    let b: int = spec_blob_at(bytes, a, limit)->Ok_0.1;
                    lemma_blob_at_continues(bytes, longer, b, limit);
                }
            }
        }
    }
}

impl SealPirMessage {
    /// Appends the frame of this message to `stream`.
    pub fn write_to(&self, stream: &mut Vec<u8>)
        ensures
            final(stream)@ == old(stream)@ + self@.encoding(),
    {
        match self {
            SealPirMessage::Query(key, query) => {
                put_u32(stream, 0);
                put_blob(stream, key.as_slice());
                put_blob(stream, query.as_slice());
            },
            SealPirMessage::Response(reply) => {
                put_u32(stream, 1);
                put_blob(stream, reply.as_slice());
            },
        }
        assert(stream@ =~= old(stream)@ + self@.encoding());
    }

    /// Decodes the frame that starts at offset `at` of `bytes`, refusing a
    /// field longer than `limit`. Returns the message and the offset behind
    /// its frame.
    pub fn decode_at(bytes: &[u8], at: usize, limit: usize) -> (r: Result<
        (SealPirMessage, usize),
        FrameError,
    >)
        requires
            at <= bytes.len(),
        ensures
            match r {
                Ok((message, end)) => SealPirFrame::decoding_at(bytes@, at as int, limit as nat)
                    == Ok::<(SealPirFrame, int), FrameError>((message@, end as int)),
                Err(e) => SealPirFrame::decoding_at(bytes@, at as int, limit as nat) == Err::<
                    (SealPirFrame, int),
                    FrameError,
                >(e),
            },
    {
        let (tag, fields) = match u32_at(bytes, at) {
            Err(e) => { return Err(e); },
            Ok(read) => read,
        };
        if tag == 0 {
            let (key, second) = match blob_at(bytes, fields, limit) {
                Err(e) => { return Err(e); },
                Ok(read) => read,
            };
            match blob_at(bytes, second, limit) {
                Err(e) => Err(e),
                Ok((query, end)) => Ok((SealPirMessage::Query(key, query), end)),
            }
        } else if tag == 1 {
            match blob_at(bytes, fields, limit) {
                Err(e) => Err(e),
                Ok((reply, end)) => Ok((SealPirMessage::Response(reply), end)),
            }
        } else {
            Err(FrameError::InvalidTag)
        }
    }
}

/// A message of one of the three schemes.
#[derive(Debug, Clone, PartialEq, Eq)]
pub enum ProtocolMessage {
    SealPir(SealPirMessage),
    RaidPir(RaidPirMessage),
    HybridPir(HybridPirMessage),
}

/// What a [`ProtocolMessage`] holds.
pub enum ProtocolFrame {
    SealPir(SealPirFrame),
    RaidPir(RaidPirFrame),
    HybridPir(HybridPirFrame),
}

impl View for ProtocolMessage {
    type V = ProtocolFrame;

    open spec fn view(&self) -> ProtocolFrame {
        match *self {
            ProtocolMessage::SealPir(message) => ProtocolFrame::SealPir(message@),
            ProtocolMessage::RaidPir(message) => ProtocolFrame::RaidPir(message@),
            ProtocolMessage::HybridPir(message) => ProtocolFrame::HybridPir(message@),
        }
    }
}

impl ProtocolFrame {
    /// The discriminant of the variant.
    pub open spec fn tag(self) -> nat {
        match self {
            ProtocolFrame::SealPir(_) => 0,
            ProtocolFrame::RaidPir(_) => 1,
            ProtocolFrame::HybridPir(_) => 2,
        }
    }

    /// The frame of the message inside.
    pub open spec fn payload(self) -> Seq<u8> {
        match self {
            ProtocolFrame::SealPir(message) => message.encoding(),
            ProtocolFrame::RaidPir(message) => message.encoding(),
            ProtocolFrame::HybridPir(message) => message.encoding(),
        }
    }

    /// The frame of a message: the discriminant of the scheme and the frame
    /// of the scheme's message.
    pub open spec fn encoding(self) -> Seq<u8> {
        le_bytes(self.tag(), 4) + self.payload()
    }

    /// No field is longer than `limit`.
    pub open spec fn fits(self, limit: nat) -> bool {
        match self {
            ProtocolFrame::SealPir(message) => message.fits(limit),
            ProtocolFrame::RaidPir(message) => message.fits(limit),
            ProtocolFrame::HybridPir(message) => message.fits(limit),
        }
    }

    /// What decoding at offset `at` gives: the message and the offset behind
    /// its frame, or the reason for which there is none.
    pub open spec fn decoding_at(bytes: Seq<u8>, at: int, limit: nat) -> Result<
        (ProtocolFrame, int),
        FrameError,
    > {
        match spec_uint_at(bytes, at, 4) {
            Err(e) => Err(e),
            Ok((tag, inner)) => if tag == 0 {
                match SealPirFrame::decoding_at(bytes, inner, limit) {
                    Err(e) => Err(e),
                    Ok((message, end)) => Ok((ProtocolFrame::SealPir(message), end)),
                }
            } else if tag == 1 {
                match RaidPirFrame::decoding_at(bytes, inner, limit) {
                    Err(e) => Err(e),
                    Ok((message, end)) => Ok((ProtocolFrame::RaidPir(message), end)),
                }
            } else if tag == 2 {
                match HybridPirFrame::decoding_at(bytes, inner, limit) {
                    Err(e) => Err(e),
                    Ok((message, end)) => Ok((ProtocolFrame::HybridPir(message), end)),
                }
            } else {
                Err(FrameError::InvalidTag)
            },
        }
    }

    /// Decoding gives back what was encoded: where the frame of a message
    /// whose fields respect the ceiling stands at `at`, decoding at `at`
    /// gives that message and the offset behind the frame, whatever follows.
    pub proof fn lemma_decoding_of_encoding(self, bytes: Seq<u8>, at: int, limit: nat)
        requires
            bytes.len() <= usize::MAX,
            self.fits(limit),
            holds_at(bytes, at, self.encoding()),
        ensures
            Self::decoding_at(bytes, at, limit) == Ok::<(ProtocolFrame, int), FrameError>(
                (self, at + self.encoding().len()),
            ),
    {
        lemma_pow256_values();
        let frame: Seq<u8> = self.encoding();
        let payload: Seq<u8> = self.payload();
        lemma_le_bytes_len(self.tag(), 4);
        assert(bytes.subrange(at, at + 4) =~= frame.subrange(0, 4));
        assert(frame.subrange(0, 4) =~= le_bytes(self.tag(), 4));
        lemma_uint_at_reads(bytes, at, self.tag(), 4);
        assert(bytes.subrange(at + 4, at + 4 + payload.len()) =~= frame.subrange(
            4,
            4 + payload.len() as int,
        ));
        assert(frame.subrange(4, 4 + payload.len() as int) =~= payload);
        match self {
            ProtocolFrame::SealPir(message) => {
                message.lemma_decoding_of_encoding(bytes, at + 4, limit);
            },
            ProtocolFrame::RaidPir(message) => {
                message.lemma_decoding_of_encoding(bytes, at + 4, limit);
            },
            ProtocolFrame::HybridPir(message) => {
                message.lemma_decoding_of_encoding(bytes, at + 4, limit);
            },
        }
    }

    /// What was decoded is what stands there: the bytes from `at` to the
    /// offset returned are the frame of the message returned, and its fields
    /// respect the ceiling.
    pub proof fn lemma_encoding_of_decoding(bytes: Seq<u8>, at: int, limit: nat)
        requires
            0 <= at,
            Self::decoding_at(bytes, at, limit) is Ok,
        ensures
            Self::decoding_at(bytes, at, limit)->Ok_0.0.fits(limit),
            Self::decoding_at(bytes, at, limit)->Ok_0.1 == at + Self::decoding_at(
                bytes,
                at,
                limit,
            )->Ok_0.0.encoding().len(),
            holds_at(bytes, at, Self::decoding_at(bytes, at, limit)->Ok_0.0.encoding()),
    {
        let message: ProtocolFrame = Self::decoding_at(bytes, at, limit)->Ok_0.0;
        let end: int = Self::decoding_at(bytes, at, limit)->Ok_0.1;
        lemma_pow256_values();
        lemma_uint_at_holds(bytes, at, 4);
        assert(spec_uint_at(bytes, at, 4)->Ok_0.0 == message.tag());
        lemma_le_bytes_len(message.tag(), 4);
        let a: int = at + 4;
        match message {
            ProtocolFrame::SealPir(inner) => {
                SealPirFrame::lemma_encoding_of_decoding(bytes, a, limit);
            },
            ProtocolFrame::RaidPir(inner) => {
                RaidPirFrame::lemma_encoding_of_decoding(bytes, a, limit);
            },
            ProtocolFrame::HybridPir(inner) => {
                HybridPirFrame::lemma_encoding_of_decoding(bytes, a, limit);
            },
        }
        assert(bytes.subrange(at, end) =~= bytes.subrange(at, a) + bytes.subrange(a, end));
    }

    /// Decoding from a longer input: a message and a refusal stay as they
    /// are; a demand for more bytes stays as it is until the input reaches
    /// the length demanded, and never asks for a byte behind the frame's end.
    pub proof fn lemma_decoding_continues(bytes: Seq<u8>, longer: Seq<u8>, at: int, limit: nat)
        requires
            spec_begins(bytes, longer),
            0 <= at <= bytes.len(),
        ensures
            spec_continues(
                Self::decoding_at(bytes, at, limit),
                Self::decoding_at(longer, at, limit),
                bytes.len(),
                longer.len(),
            ),
    {
        lemma_uint_at_continues(bytes, longer, at, 4);
        let a: int = at + 4;
        if spec_uint_at(bytes, at, 4) is Ok {
            SealPirFrame::lemma_decoding_continues(bytes, longer, a, limit);
            RaidPirFrame::lemma_decoding_continues(bytes, longer, a, limit);
            HybridPirFrame::lemma_decoding_continues(bytes, longer, a, limit);
        }
    }
}

impl ProtocolMessage {
    /// Appends the frame of this message to `stream`.
    pub fn write_to(&self, stream: &mut Vec<u8>)
        ensures
            final(stream)@ == old(stream)@ + self@.encoding(),
    {
        match self {
            ProtocolMessage::SealPir(message) => {
                put_u32(stream, 0);
                message.write_to(stream);
            },
            ProtocolMessage::RaidPir(message) => {
                put_u32(stream, 1);
                message.write_to(stream);
            },
            ProtocolMessage::HybridPir(message) => {
                put_u32(stream, 2);
                message.write_to(stream);
            },
        }
        assert(stream@ =~= old(stream)@ + self@.encoding());
    }

    /// Decodes the frame that starts at offset `at` of `bytes`, refusing a
    /// field longer than `limit`. Returns the message and the offset behind
    /// its frame.
    pub fn decode_at(bytes: &[u8], at: usize, limit: usize) -> (r: Result<
        (ProtocolMessage, usize),
        FrameError,
    >)
        requires
            at <= bytes.len(),
        ensures
            match r {
                Ok((message, end)) => ProtocolFrame::decoding_at(bytes@, at as int, limit as nat)
                    == Ok::<(ProtocolFrame, int), FrameError>((message@, end as int)),
                Err(e) => ProtocolFrame::decoding_at(bytes@, at as int, limit as nat) == Err::<
                    (ProtocolFrame, int),
                    FrameError,
                >(e),
            },
    {
        let (tag, inner) = match u32_at(bytes, at) {
            Err(e) => { return Err(e); },
            Ok(read) => read,
        };
        if tag == 0 {
            match SealPirMessage::decode_at(bytes, inner, limit) {
                Err(e) => Err(e),
                Ok((message, end)) => Ok((ProtocolMessage::SealPir(message), end)),
            }
        } else if tag == 1 {
            match RaidPirMessage::decode_at(bytes, inner, limit) {
                Err(e) => Err(e),
                Ok((message, end)) => Ok((ProtocolMessage::RaidPir(message), end)),
            }
        } else if tag == 2 {
            match HybridPirMessage::decode_at(bytes, inner, limit) {
                Err(e) => Err(e),
                Ok((message, end)) => Ok((ProtocolMessage::HybridPir(message), end)),
            }
        } else {
            Err(FrameError::InvalidTag)
        }
    }
}

/// One message of the measuring harness.
#[derive(Debug, Clone, PartialEq, Eq)]
pub enum BenchmarkMessage {
    /// Sets the server up for a scheme; sent by the client.
    Setup(BenchmarkParams),
    /// Asks the server to refill its queue of seeds; sent by the client.
    RefreshQueue,
    /// The server has done what was asked.
    Ready,
    /// A message of the scheme that the server was set up for.
    Protocol(ProtocolMessage),
}

/// What a [`BenchmarkMessage`] holds.
pub enum BenchmarkFrame {
    Setup(BenchmarkParams),
    RefreshQueue,
    Ready,
    Protocol(ProtocolFrame),
}

impl View for BenchmarkMessage {
    type V = BenchmarkFrame;

    open spec fn view(&self) -> BenchmarkFrame {
        match *self {
            BenchmarkMessage::Setup(params) => BenchmarkFrame::Setup(params),
            BenchmarkMessage::RefreshQueue => BenchmarkFrame::RefreshQueue,
            BenchmarkMessage::Ready => BenchmarkFrame::Ready,
            BenchmarkMessage::Protocol(message) => BenchmarkFrame::Protocol(message@),
        }
    }
}

impl BenchmarkFrame {
    /// The discriminant of the variant.
    pub open spec fn tag(self) -> nat {
        match self {
            BenchmarkFrame::Setup(_) => 0,
            BenchmarkFrame::RefreshQueue => 1,
            BenchmarkFrame::Ready => 2,
            BenchmarkFrame::Protocol(_) => 3,
        }
    }

    /// What follows the discriminant.
    pub open spec fn payload(self) -> Seq<u8> {
        match self {
            BenchmarkFrame::Setup(params) => params.encoding(),
            BenchmarkFrame::RefreshQueue => Seq::empty(),
            BenchmarkFrame::Ready => Seq::empty(),
            BenchmarkFrame::Protocol(message) => message.encoding(),
        }
    }

    /// The frame of a message.
    pub open spec fn encoding(self) -> Seq<u8> {
        le_bytes(self.tag(), 4) + self.payload()
    }

    /// No field is longer than `limit`.
    pub open spec fn fits(self, limit: nat) -> bool {
        match self {
            BenchmarkFrame::Protocol(message) => message.fits(limit),
            _ => true,
        }
    }

    /// What decoding at offset `at` gives: the message and the offset behind
    /// its frame, or the reason for which there is none.
    pub open spec fn decoding_at(bytes: Seq<u8>, at: int, limit: nat) -> Result<
        (BenchmarkFrame, int),
        FrameError,
    > {
        match spec_uint_at(bytes, at, 4) {
            Err(e) => Err(e),
            Ok((tag, inner)) => if tag == 0 {
                match BenchmarkParams::decoding_at(bytes, inner) {
                    Err(e) => Err(e),
                    Ok((params, end)) => Ok((BenchmarkFrame::Setup(params), end)),
                }
            } else if tag == 1 {
                Ok((BenchmarkFrame::RefreshQueue, inner))
            } else if tag == 2 {
                Ok((BenchmarkFrame::Ready, inner))
            } else if tag == 3 {
                match ProtocolFrame::decoding_at(bytes, inner, limit) {
                    Err(e) => Err(e),
                    Ok((message, end)) => Ok((BenchmarkFrame::Protocol(message), end)),
                }
            } else {
                Err(FrameError::InvalidTag)
            },
        }
    }

    /// What decoding from the start gives.
    pub open spec fn decoding(bytes: Seq<u8>, limit: nat) -> Result<
        (BenchmarkFrame, int),
        FrameError,
    > {
        Self::decoding_at(bytes, 0, limit)
    }

    /// Decoding gives back what was encoded: where the frame of a message
    /// whose fields respect the ceiling stands at `at`, decoding at `at`
    /// gives that message and the offset behind the frame, whatever follows.
    pub proof fn lemma_decoding_of_encoding(self, bytes: Seq<u8>, at: int, limit: nat)
        requires
            bytes.len() <= usize::MAX,
            self.fits(limit),
            holds_at(bytes, at, self.encoding()),
        ensures
            Self::decoding_at(bytes, at, limit) == Ok::<(BenchmarkFrame, int), FrameError>(
                (self, at + self.encoding().len()),
            ),
    {
        lemma_pow256_values();
        let frame: Seq<u8> = self.encoding();
        let payload: Seq<u8> = self.payload();
        lemma_le_bytes_len(self.tag(), 4);
        assert(bytes.subrange(at, at + 4) =~= frame.subrange(0, 4));
        assert(frame.subrange(0, 4) =~= le_bytes(self.tag(), 4));
        lemma_uint_at_reads(bytes, at, self.tag(), 4);
        assert(bytes.subrange(at + 4, at + 4 + payload.len()) =~= frame.subrange(
            4,
            4 + payload.len() as int,
        ));
        assert(frame.subrange(4, 4 + payload.len() as int) =~= payload);
        match self {
            BenchmarkFrame::Setup(params) => {
                params.lemma_decoding_of_encoding(bytes, at + 4);
            },
            BenchmarkFrame::Protocol(message) => {
                message.lemma_decoding_of_encoding(bytes, at + 4, limit);
            },
            _ => {},
        }
    }

    /// What was decoded is what stands there: the bytes from `at` to the
    /// offset returned are the frame of the message returned, and its fields
    /// respect the ceiling.
    pub proof fn lemma_encoding_of_decoding(bytes: Seq<u8>, at: int, limit: nat)
        requires
            0 <= at,
            Self::decoding_at(bytes, at, limit) is Ok,
        ensures
            Self::decoding_at(bytes, at, limit)->Ok_0.0.fits(limit),
            Self::decoding_at(bytes, at, limit)->Ok_0.1 == at + Self::decoding_at(
                bytes,
                at,
                limit,
            )->Ok_0.0.encoding().len(),
            holds_at(bytes, at, Self::decoding_at(bytes, at, limit)->Ok_0.0.encoding()),
    {
        let message: BenchmarkFrame = Self::decoding_at(bytes, at, limit)->Ok_0.0;
        let end: int = Self::decoding_at(bytes, at, limit)->Ok_0.1;
        lemma_pow256_values();
        lemma_uint_at_holds(bytes, at, 4);
        assert(spec_uint_at(bytes, at, 4)->Ok_0.0 == message.tag());
        lemma_le_bytes_len(message.tag(), 4);
        let a: int = at + 4;
        match message {
            BenchmarkFrame::Setup(params) => {
                BenchmarkParams::lemma_encoding_of_decoding(bytes, a);
            },
            BenchmarkFrame::Protocol(inner) => {
                ProtocolFrame::lemma_encoding_of_decoding(bytes, a, limit);
            },
            _ => {},
        }
        assert(bytes.subrange(at, end) =~= bytes.subrange(at, a) + bytes.subrange(a, end));
        assert(bytes.subrange(at, end) =~= message.encoding());
    }

    /// Decoding from a longer input: a message and a refusal stay as they
    /// are; a demand for more bytes stays as it is until the input reaches
    /// the length demanded, and never asks for a byte behind the frame's end.
    pub proof fn lemma_decoding_continues(bytes: Seq<u8>, longer: Seq<u8>, at: int, limit: nat)
        requires
            spec_begins(bytes, longer),
            0 <= at <= bytes.len(),
        ensures
            spec_continues(
                Self::decoding_at(bytes, at, limit),
                Self::decoding_at(longer, at, limit),
                bytes.len(),
                longer.len(),
            ),
    {
        lemma_uint_at_continues(bytes, longer, at, 4);
        let a: int = at + 4;
        if spec_uint_at(bytes, at, 4) is Ok {
            BenchmarkParams::lemma_decoding_continues(bytes, longer, a);
            ProtocolFrame::lemma_decoding_continues(bytes, longer, a, limit);
        }
    }

    /// Decoding the frame of a message gives the message back, for every
    /// variant, whether its byte strings are empty or as long as the ceiling
    /// allows.
    pub proof fn lemma_round_trip(self, limit: nat)
        requires
            self.fits(limit),
            self.encoding().len() <= usize::MAX,
        ensures
            Self::decoding(self.encoding(), limit) == Ok::<(BenchmarkFrame, int), FrameError>(
                (self, self.encoding().len() as int),
            ),
    {
        let frame: Seq<u8> = self.encoding();
        assert(frame.subrange(0, frame.len() as int) =~= frame);
        self.lemma_decoding_of_encoding(frame, 0, limit);
    }

    /// Reading by demand takes no byte of what follows the frame: where the
    /// decoder asks for more than it was given and a longer input holds a
    /// frame, the length asked for lies behind the end of what was given and
    /// not behind the end of the frame.
    pub proof fn lemma_demand_within_frame(bytes: Seq<u8>, longer: Seq<u8>, limit: nat)
        requires
            spec_begins(bytes, longer),
            Self::decoding(bytes, limit) is Err,
            Self::decoding(bytes, limit)->Err_0 is Incomplete,
            Self::decoding(longer, limit) is Ok,
        ensures
            bytes.len() < Self::decoding(bytes, limit)->Err_0->needed <= Self::decoding(
                longer,
                limit,
            )->Ok_0.1,
    {
        Self::lemma_decoding_continues(bytes, longer, 0, limit);
    }
}

impl BenchmarkMessage {
    /// Appends the frame of this message to `stream`.
    pub fn write_to(&self, stream: &mut Vec<u8>)
        ensures
            final(stream)@ == old(stream)@ + self@.encoding(),
    {
        match self {
            BenchmarkMessage::Setup(params) => {
                put_u32(stream, 0);
                params.write_to(stream);
            },
            BenchmarkMessage::RefreshQueue => {
                put_u32(stream, 1);
            },
            BenchmarkMessage::Ready => {
                put_u32(stream, 2);
            },
            BenchmarkMessage::Protocol(message) => {
                put_u32(stream, 3);
                message.write_to(stream);
            },
        }
        assert(stream@ =~= old(stream)@ + self@.encoding());
    }

    /// The frame of this message.
    pub fn encode(&self) -> (bytes: Vec<u8>)
        ensures
            bytes@ == self@.encoding(),
    {
        let mut bytes: Vec<u8> = Vec::new();
        self.write_to(&mut bytes);
        assert(bytes@ =~= self@.encoding());
        bytes
    }

    /// Decodes the frame that starts at offset `at` of `bytes`, refusing a
    /// field longer than `limit`. Returns the message and the offset behind
    /// its frame.
    pub fn decode_at(bytes: &[u8], at: usize, limit: usize) -> (r: Result<
        (BenchmarkMessage, usize),
        FrameError,
    >)
        requires
            at <= bytes.len(),
        ensures
            match r {
                Ok((message, end)) => BenchmarkFrame::decoding_at(bytes@, at as int, limit as nat)
                    == Ok::<(BenchmarkFrame, int), FrameError>((message@, end as int)),
                Err(e) => BenchmarkFrame::decoding_at(bytes@, at as int, limit as nat) == Err::<
                    (BenchmarkFrame, int),
                    FrameError,
                >(e),
            },
    {
        let (tag, inner) = match u32_at(bytes, at) {
            Err(e) => { return Err(e); },
            Ok(read) => read,
        };
        if tag == 0 {
            match BenchmarkParams::decode_at(bytes, inner) {
                Err(e) => Err(e),
                Ok((params, end)) => Ok((BenchmarkMessage::Setup(params), end)),
            }
        } else if tag == 1 {
            Ok((BenchmarkMessage::RefreshQueue, inner))
        } else if tag == 2 {
            Ok((BenchmarkMessage::Ready, inner))
        } else if tag == 3 {
            match ProtocolMessage::decode_at(bytes, inner, limit) {
                Err(e) => Err(e),
                Ok((message, end)) => Ok((BenchmarkMessage::Protocol(message), end)),
            }
        } else {
            Err(FrameError::InvalidTag)
        }
    }

    /// Decodes the frame at the start of `bytes`, refusing a field longer
    /// than `limit`. Returns the message and the length of its frame.
    pub fn decode(bytes: &[u8], limit: usize) -> (r: Result<(BenchmarkMessage, usize), FrameError>)
        ensures
            match r {
                Ok((message, end)) => BenchmarkFrame::decoding(bytes@, limit as nat) == Ok::<
                    (BenchmarkFrame, int),
                    FrameError,
                >((message@, end as int)),
                Err(e) => BenchmarkFrame::decoding(bytes@, limit as nat) == Err::<
                    (BenchmarkFrame, int),
                    FrameError,
                >(e),
            },
    {
        Self::decode_at(bytes, 0, limit)
    }

    /// Decodes the frame at the start of `stream` under the default ceiling
    /// for one field. Returns the message and the length of its frame.
    pub fn read_from(stream: &[u8]) -> (r: Result<(BenchmarkMessage, usize), FrameError>)
        ensures
            match r {
                Ok((message, end)) => BenchmarkFrame::decoding(
                    stream@,
                    DEFAULT_FIELD_LIMIT as nat,
                ) == Ok::<(BenchmarkFrame, int), FrameError>((message@, end as int)),
                Err(e) => BenchmarkFrame::decoding(stream@, DEFAULT_FIELD_LIMIT as nat) == Err::<
                    (BenchmarkFrame, int),
                    FrameError,
                >(e),
            },
    {
        Self::decode(stream, DEFAULT_FIELD_LIMIT)
    }
}

/// Seconds after which a read or a write on a stream of the harness is
/// given up: measurements on large databases take long.
pub const STREAM_TIMEOUT_SECS: u64 = 3600;

/// How many queries a series runs for one measurement.
pub const SERIES_LENGTH: usize = 10;

/// How many seeds a server keeps ready, and so how many queries may run
/// between two refills of its queue.
pub const QUEUE_SIZE: usize = 32;

/// Whether the servers are asked to refill their queues before query number
/// `iteration` of a series, counted from zero.
pub open spec fn spec_refresh_due(iteration: nat) -> bool {
    iteration % (QUEUE_SIZE as nat) == 0
}

/// Whether the servers are asked to refill their queues before query number
/// `iteration` of a series, counted from zero.
pub fn refresh_due(iteration: usize) -> (due: bool)
    ensures
        due == spec_refresh_due(iteration as nat),
{
    iteration % QUEUE_SIZE == 0
}

/// No query of a series finds the queue empty: before every query there is
/// a refill that lies fewer than [`QUEUE_SIZE`] queries back, so that the
/// query takes one of the seeds of that refill.
pub proof fn lemma_refresh_covers(iteration: nat)
    ensures
        exists|refill: nat|
            refill <= iteration && iteration - refill < QUEUE_SIZE && #[trigger] spec_refresh_due(
                refill,
            ),
{
    let refill: nat = (iteration - iteration % (QUEUE_SIZE as nat)) as nat;
    vstd::arithmetic::div_mod::lemma_fundamental_div_mod(iteration as int, QUEUE_SIZE as int);
    vstd::arithmetic::div_mod::lemma_mod_multiples_basic(
        iteration as int / (QUEUE_SIZE as int),
        QUEUE_SIZE as int,
    );
    assert(refill == (QUEUE_SIZE as int) * (iteration as int / (QUEUE_SIZE as int)));
    assert((QUEUE_SIZE as int) * (iteration as int / (QUEUE_SIZE as int)) == (iteration as int / (
        QUEUE_SIZE as int)) * (QUEUE_SIZE as int)) by (nonlinear_arith);
    assert(spec_refresh_due(refill));
}

/// The messages of a round of the harness as what they hold, in the order
/// of the servers.
pub open spec fn spec_envelopes(messages: Seq<BenchmarkMessage>) -> Seq<BenchmarkFrame> {
    Seq::new(messages.len(), |i: int| messages[i]@)
}

/// A message of the hybrid scheme in the envelope of the harness.
pub open spec fn spec_wrap_hybridpir(frame: HybridPirFrame) -> BenchmarkFrame {
    BenchmarkFrame::Protocol(ProtocolFrame::HybridPir(frame))
}

/// A message of the multi-server scheme in the envelope of the harness.
pub open spec fn spec_wrap_raidpir(frame: RaidPirFrame) -> BenchmarkFrame {
    BenchmarkFrame::Protocol(ProtocolFrame::RaidPir(frame))
}

/// A message of the single-server scheme in the envelope of the harness.
pub open spec fn spec_wrap_sealpir(frame: SealPirFrame) -> BenchmarkFrame {
    BenchmarkFrame::Protocol(ProtocolFrame::SealPir(frame))
}

/// Every message of the round carries a message of the hybrid scheme.
pub open spec fn spec_all_hybridpir(frames: Seq<BenchmarkFrame>) -> bool {
    forall|i: int|
        0 <= i < frames.len() ==> (#[trigger] frames[i]) is Protocol
            && frames[i]->Protocol_0 is HybridPir
}

/// The messages of the hybrid scheme that a round carries.
pub open spec fn spec_unwrap_hybridpir(frames: Seq<BenchmarkFrame>) -> Seq<HybridPirFrame> {
    Seq::new(frames.len(), |i: int| frames[i]->Protocol_0->HybridPir_0)
}

/// Every message of the round carries a seed of the multi-server scheme.
pub open spec fn spec_all_raidpir_seeds(frames: Seq<BenchmarkFrame>) -> bool {
    forall|i: int|
        0 <= i < frames.len() ==> (#[trigger] frames[i]) is Protocol
            && frames[i]->Protocol_0 is RaidPir && frames[i]->Protocol_0->RaidPir_0 is Seed
}

/// The seeds that a round carries.
pub open spec fn spec_raidpir_seeds(frames: Seq<BenchmarkFrame>) -> Seq<u128> {
    Seq::new(frames.len(), |i: int| frames[i]->Protocol_0->RaidPir_0->Seed_0)
}

/// Every message of the round carries a response of the multi-server
/// scheme.
pub open spec fn spec_all_raidpir_responses(frames: Seq<BenchmarkFrame>) -> bool {
    forall|i: int|
        0 <= i < frames.len() ==> (#[trigger] frames[i]) is Protocol
            && frames[i]->Protocol_0 is RaidPir && frames[i]->Protocol_0->RaidPir_0 is Response
}

/// The responses that a round carries.
pub open spec fn spec_raidpir_responses(frames: Seq<BenchmarkFrame>) -> Seq<Seq<u8>> {
    Seq::new(frames.len(), |i: int| frames[i]->Protocol_0->RaidPir_0->Response_0)
}

/// A round of the hybrid scheme, every message in the envelope of the
/// harness.
pub fn wrap_hybridpir_round(round: &Vec<HybridPirMessage>) -> (wrapped: Vec<BenchmarkMessage>)
    ensures
        spec_envelopes(wrapped@) == spec_frames(round@).map_values(
            |frame: HybridPirFrame| spec_wrap_hybridpir(frame),
        ),
{
    let mut wrapped: Vec<BenchmarkMessage> = Vec::new();
    let mut i: usize = 0;
    while i < round.len()
        invariant
            i <= round.len(),
            wrapped.len() == i,
            forall|j: int|
                0 <= j < i ==> (#[trigger] wrapped[j])@ == spec_wrap_hybridpir(round[j]@),
        decreases round.len() - i,
    {
        wrapped.push(BenchmarkMessage::Protocol(ProtocolMessage::HybridPir(round[i].duplicate())));
        i = i + 1;
    }
    assert(spec_envelopes(wrapped@) =~= spec_frames(round@).map_values(
        |frame: HybridPirFrame| spec_wrap_hybridpir(frame),
    ));
    wrapped
}

/// The messages of the hybrid scheme that a round of the harness carries,
/// if every message of the round carries one.
pub fn unwrap_hybridpir_round(replies: &Vec<BenchmarkMessage>) -> (round: Option<
    Vec<HybridPirMessage>,
>)
    ensures
        round is Some <==> spec_all_hybridpir(spec_envelopes(replies@)),
        round is Some ==> spec_frames(round->Some_0@) == spec_unwrap_hybridpir(
            spec_envelopes(replies@),
        ),
{
    let ghost frames: Seq<BenchmarkFrame> = spec_envelopes(replies@);
    let mut round: Vec<HybridPirMessage> = Vec::new();
    let mut i: usize = 0;
    while i < replies.len()
        invariant
            i <= replies.len(),
            frames == spec_envelopes(replies@),
            round.len() == i,
            forall|j: int|
                0 <= j < i ==> (#[trigger] frames[j]) is Protocol
                    && frames[j]->Protocol_0 is HybridPir,
            forall|j: int|
                0 <= j < i ==> (#[trigger] round[j])@ == frames[j]->Protocol_0->HybridPir_0,
        decreases replies.len() - i,
    {
        assert(frames[i as int] == replies[i as int]@);
        match &replies[i] {
            BenchmarkMessage::Protocol(ProtocolMessage::HybridPir(message)) => {
                round.push(message.duplicate());
            },
            _ => {
                assert(!(frames[i as int] is Protocol
                    && frames[i as int]->Protocol_0 is HybridPir));
                return None;
            },
        }
        i = i + 1;
    }
    assert(spec_frames(round@) =~= spec_unwrap_hybridpir(frames));
    Some(round)
}

/// A round of `servers` greetings of the multi-server scheme.
pub fn raidpir_hello_round(servers: usize) -> (round: Vec<BenchmarkMessage>)
    ensures
        spec_envelopes(round@) == Seq::new(
            servers as nat,
            |i: int| spec_wrap_raidpir(RaidPirFrame::Hello),
        ),
{
    let mut round: Vec<BenchmarkMessage> = Vec::new();
    let mut i: usize = 0;
    while i < servers
        invariant
            i <= servers,
            round.len() == i,
            forall|j: int|
                0 <= j < i ==> (#[trigger] round[j])@ == spec_wrap_raidpir(RaidPirFrame::Hello),
        decreases servers - i,
    {
        round.push(BenchmarkMessage::Protocol(ProtocolMessage::RaidPir(RaidPirMessage::Hello)));
        i = i + 1;
    }
    assert(spec_envelopes(round@) =~= Seq::new(
        servers as nat,
        |i: int| spec_wrap_raidpir(RaidPirFrame::Hello),
    ));
    round
}

/// The seeds of a round of replies, if every reply carries a seed of the
/// multi-server scheme.
pub fn raidpir_seeds(replies: &Vec<BenchmarkMessage>) -> (seeds: Option<Vec<u128>>)
    ensures
        seeds is Some <==> spec_all_raidpir_seeds(spec_envelopes(replies@)),
        seeds is Some ==> seeds->Some_0@ == spec_raidpir_seeds(spec_envelopes(replies@)),
{
    let ghost frames: Seq<BenchmarkFrame> = spec_envelopes(replies@);
    let mut seeds: Vec<u128> = Vec::new();
    let mut i: usize = 0;
    while i < replies.len()
        invariant
            i <= replies.len(),
            frames == spec_envelopes(replies@),
            seeds.len() == i,
            forall|j: int|
                0 <= j < i ==> (#[trigger] frames[j]) is Protocol
                    && frames[j]->Protocol_0 is RaidPir && frames[j]->Protocol_0->RaidPir_0 is Seed,
            forall|j: int|
                0 <= j < i ==> #[trigger] seeds[j] == frames[j]->Protocol_0->RaidPir_0->Seed_0,
        decreases replies.len() - i,
    {
        assert(frames[i as int] == replies[i as int]@);
        match &replies[i] {
            BenchmarkMessage::Protocol(ProtocolMessage::RaidPir(RaidPirMessage::Seed(seed))) => {
                seeds.push(*seed);
            },
            _ => {
                assert(!(frames[i as int] is Protocol && frames[i as int]->Protocol_0 is RaidPir
                    && frames[i as int]->Protocol_0->RaidPir_0 is Seed));
                return None;
            },
        }
        i = i + 1;
    }
    assert(seeds@ =~= spec_raidpir_seeds(frames));
    Some(seeds)
}

/// The round of queries of the multi-server scheme: server `i` gets the
/// bytes that carry query `i`.
pub fn raidpir_query_round(queries: &Vec<RaidPirQuery>) -> (round: Vec<BenchmarkMessage>)
    ensures
        spec_envelopes(round@) == Seq::new(
            queries.len() as nat,
            |i: int| spec_wrap_raidpir(RaidPirFrame::Query(spec_pack(spec_queries(queries@)[i]))),
        ),
{
    let mut round: Vec<BenchmarkMessage> = Vec::new();
    let mut i: usize = 0;
    while i < queries.len()
        invariant
            i <= queries.len(),
            round.len() == i,
            forall|j: int|
                0 <= j < i ==> (#[trigger] round[j])@ == spec_wrap_raidpir(
                    RaidPirFrame::Query(spec_pack(spec_query_bits(queries[j]))),
                ),
        decreases queries.len() - i,
    {
        round.push(
            BenchmarkMessage::Protocol(
                ProtocolMessage::RaidPir(RaidPirMessage::Query(queries[i].to_wire())),
            ),
        );
        i = i + 1;
    }
    assert(spec_envelopes(round@) =~= Seq::new(
        queries.len() as nat,
        |i: int| spec_wrap_raidpir(RaidPirFrame::Query(spec_pack(spec_queries(queries@)[i]))),
    ));
    round
}

/// The responses of a round of replies, if every reply carries a response
/// of the multi-server scheme.
pub fn raidpir_responses(replies: &Vec<BenchmarkMessage>) -> (payloads: Option<Vec<Vec<u8>>>)
    ensures
        payloads is Some <==> spec_all_raidpir_responses(spec_envelopes(replies@)),
        payloads is Some ==> spec_records(payloads->Some_0@) == spec_raidpir_responses(
            spec_envelopes(replies@),
        ),
{
    let ghost frames: Seq<BenchmarkFrame> = spec_envelopes(replies@);
    let mut payloads: Vec<Vec<u8>> = Vec::new();
    let mut i: usize = 0;
    while i < replies.len()
        invariant
            i <= replies.len(),
            frames == spec_envelopes(replies@),
            payloads.len() == i,
            forall|j: int|
                0 <= j < i ==> (#[trigger] frames[j]) is Protocol
                    && frames[j]->Protocol_0 is RaidPir
                    && frames[j]->Protocol_0->RaidPir_0 is Response,
            forall|j: int|
                0 <= j < i ==> (#[trigger] payloads[j])@
                    == frames[j]->Protocol_0->RaidPir_0->Response_0,
        decreases replies.len() - i,
    {
        assert(frames[i as int] == replies[i as int]@);
        match &replies[i] {
            BenchmarkMessage::Protocol(
                ProtocolMessage::RaidPir(RaidPirMessage::Response(reply)),
            ) => {
                payloads.push(copy_bytes(reply));
            },
            _ => {
                assert(!(frames[i as int] is Protocol && frames[i as int]->Protocol_0 is RaidPir
                    && frames[i as int]->Protocol_0->RaidPir_0 is Response));
                return None;
            },
        }
        i = i + 1;
    }
    assert(spec_records(payloads@) =~= spec_raidpir_responses(frames));
    Some(payloads)
}

/// The message that asks a server of the single-server scheme: the client's
/// key and its query.
pub fn sealpir_query(key: Vec<u8>, query: Vec<u8>) -> (message: BenchmarkMessage)
    ensures
        message@ == spec_wrap_sealpir(SealPirFrame::Query(key@, query@)),
{
    BenchmarkMessage::Protocol(ProtocolMessage::SealPir(SealPirMessage::Query(key, query)))
}

/// The reply of the single-server scheme that a message carries, if it
/// carries one.
pub fn sealpir_reply(message: BenchmarkMessage) -> (reply: Option<Vec<u8>>)
    ensures
        reply is Some <==> (message@ is Protocol && message@->Protocol_0 is SealPir
            && message@->Protocol_0->SealPir_0 is Response),
        reply is Some ==> reply->Some_0@ == message@->Protocol_0->SealPir_0->Response_0,
{
    match message {
        BenchmarkMessage::Protocol(ProtocolMessage::SealPir(SealPirMessage::Response(reply))) => {
            Some(reply)
        },
        _ => None,
    }
}

} // verus!
