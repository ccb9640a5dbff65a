//! Byte-level building blocks of the frame format: little-endian unsigned
//! integers of a fixed width and byte strings behind a 64-bit length.
//!
//! Every reader works at an absolute offset into the input and reports one of
//! three things: the value together with the offset just behind it, the length
//! the input has to reach before reading can go on, or the reason for which no
//! continuation of the input can be a frame.

use vstd::prelude::*;

verus! {

/// Why a byte string is not a frame.
#[derive(Clone, Copy, Debug, PartialEq, Eq, Structural)]
pub enum FrameError {
    /// The input ends inside the frame. `needed` is the length that the input
    /// has to reach before more can be said; it never lies behind the end of
    /// the frame.
    Incomplete { needed: usize },
    /// The discriminant names no variant.
    InvalidTag,
    /// A declared length is above the ceiling for one field, or the frame
    /// would end behind the largest addressable offset.
    Oversized,
    /// A field holds a value outside its type: a truth value other than 0 and
    /// 1, or a count that this machine's word cannot hold.
    InvalidValue,
}

/// Ceiling for the length of one field when none is configured: 256 MiB.
pub const DEFAULT_FIELD_LIMIT: usize = 268435456;

/// `256` to the power `n`.
pub open spec fn pow256(n: nat) -> nat
    decreases n,
{
    if n == 0 {
        1
    } else {
        256 * pow256((n - 1) as nat)
    }
}

/// The `width` low bytes of `value`, least significant first.
pub open spec fn le_bytes(value: nat, width: nat) -> Seq<u8>
    decreases width,
{
    if width == 0 {
        Seq::empty()
    } else {
        seq![(value % 256) as u8] + le_bytes(value / 256, (width - 1) as nat)
    }
}

/// The number that `bytes` spell, least significant byte first.
pub open spec fn le_value(bytes: Seq<u8>) -> nat
    decreases bytes.len(),
{
    if bytes.len() == 0 {
        0
    } else {
        bytes[0] as nat + 256 * le_value(bytes.skip(1))
    }
}

/// A byte string on the wire: its length in eight bytes, followed by itself.
pub open spec fn spec_blob(data: Seq<u8>) -> Seq<u8> {
    le_bytes(data.len(), 8) + data
}

/// `piece` stands in `bytes` at offset `at`.
pub open spec fn holds_at(bytes: Seq<u8>, at: int, piece: Seq<u8>) -> bool {
    &&& 0 <= at
    &&& at + piece.len() <= bytes.len()
    &&& bytes.subrange(at, at + piece.len()) == piece
}

/// The powers of 256 at the widths that occur on the wire.
pub proof fn lemma_pow256_values()
    ensures
        pow256(0) == 1,
        pow256(1) == 0x100,
        pow256(4) == 0x1_0000_0000,
        pow256(8) == 0x1_0000_0000_0000_0000,
        pow256(16) == 0x1_0000_0000_0000_0000_0000_0000_0000_0000,
{
    reveal_with_fuel(pow256, 17);
}

/// A higher power of 256 is not smaller.
pub proof fn lemma_pow256_monotonic(a: nat, b: nat)
    requires
        a <= b,
    ensures
        0 < pow256(a) <= pow256(b),
    decreases b,
{
    if b == 0 {
    } else if a == b {
        lemma_pow256_monotonic((a - 1) as nat, (b - 1) as nat);
    } else {
        lemma_pow256_monotonic(a, (b - 1) as nat);
    }
}

/// A number written in `width` bytes takes `width` bytes.
pub proof fn lemma_le_bytes_len(value: nat, width: nat)
    ensures
        le_bytes(value, width).len() == width,
    decreases width,
{
    if width > 0 {
        lemma_le_bytes_len(value / 256, (width - 1) as nat);
    }
}

/// A number spelled by `n` bytes is below `256^n`.
pub proof fn lemma_le_value_bound(bytes: Seq<u8>)
    ensures
        le_value(bytes) < pow256(bytes.len()),
    decreases bytes.len(),
{
    if bytes.len() > 0 {
        lemma_le_value_bound(bytes.skip(1));
        let rest: nat = le_value(bytes.skip(1));
        let p: nat = pow256((bytes.len() - 1) as nat);
        assert(256 * rest + 256 <= 256 * p) by (nonlinear_arith)
            requires
                rest < p,
        ;
    }
}

/// Reading back what was written gives the number, when the width holds it.
pub proof fn lemma_le_value_of_bytes(value: nat, width: nat)
    requires
        value < pow256(width),
    ensures
        le_value(le_bytes(value, width)) == value,
    decreases width,
{
    if width > 0 {
        let rest: Seq<u8> = le_bytes(value / 256, (width - 1) as nat);
        let all: Seq<u8> = le_bytes(value, width);
        let p: nat = pow256((width - 1) as nat);
        assert(value / 256 < p) by (nonlinear_arith)
            requires
                value < 256 * p,
        ;
        lemma_le_value_of_bytes(value / 256, (width - 1) as nat);
        lemma_le_bytes_len(value / 256, (width - 1) as nat);
        assert(all.skip(1) =~= rest);
        assert(all[0] == (value % 256) as u8);
        assert(value == 256 * (value / 256) + value % 256) by (nonlinear_arith);
    }
}

/// Writing the number that bytes spell gives the bytes back.
pub proof fn lemma_le_bytes_of_value(bytes: Seq<u8>)
    ensures
        le_bytes(le_value(bytes), bytes.len()) == bytes,
    decreases bytes.len(),
{
    if bytes.len() > 0 {
        let rest: nat = le_value(bytes.skip(1));
        let first: nat = bytes[0] as nat;
        lemma_le_bytes_of_value(bytes.skip(1));
        assert((first + 256 * rest) % 256 == first && (first + 256 * rest) / 256 == rest)
            by (nonlinear_arith)
            requires
                first < 256,
        ;
        assert(le_bytes(le_value(bytes), bytes.len()) =~= bytes);
    } else {
        assert(le_bytes(le_value(bytes), bytes.len()) =~= bytes);
    }
}

/// Appends the `width` low bytes of `value`, least significant first.
pub fn put_uint(out: &mut Vec<u8>, value: u128, width: usize)
    requires
        width <= 16,
    ensures
        final(out)@ == old(out)@ + le_bytes(value as nat, width as nat),
{
    let mut rest: u128 = value;
    let mut done: usize = 0;
    assert(out@ + le_bytes(rest as nat, (width - done) as nat) =~= old(out)@ + le_bytes(
        value as nat,
        width as nat,
    ));
    while done < width
        invariant
            done <= width,
            old(out)@ + le_bytes(value as nat, width as nat) == out@ + le_bytes(
                rest as nat,
                (width - done) as nat,
            ),
        decreases width - done,
    {
        let ghost before: Seq<u8> = out@;
        let ghost left: nat = (width - done) as nat;
        let low: u8 = (rest % 256) as u8;
        out.push(low);
        proof {
            assert(le_bytes(rest as nat, left) == seq![low] + le_bytes(
                (rest / 256) as nat,
                (left - 1) as nat,
            ));
            assert(before + (seq![low] + le_bytes((rest / 256) as nat, (left - 1) as nat))
                =~= before.push(low) + le_bytes((rest / 256) as nat, (left - 1) as nat));
        }
        rest = rest / 256;
        done = done + 1;
    }
    assert(out@ + le_bytes(rest as nat, 0) =~= out@);
}

/// Appends a 32-bit number in four bytes.
pub fn put_u32(out: &mut Vec<u8>, value: u32)
    ensures
        final(out)@ == old(out)@ + le_bytes(value as nat, 4),
{
    put_uint(out, value as u128, 4);
}

/// Appends a 128-bit number in sixteen bytes.
pub fn put_u128(out: &mut Vec<u8>, value: u128)
    ensures
        final(out)@ == old(out)@ + le_bytes(value as nat, 16),
{
    put_uint(out, value, 16);
}

/// Appends a machine word as a 64-bit number.
pub fn put_usize(out: &mut Vec<u8>, value: usize)
    ensures
        final(out)@ == old(out)@ + le_bytes(value as nat, 8),
{
    put_uint(out, value as u128, 8);
}

/// The number that stands for a truth value: 1 for true, 0 for false.
pub open spec fn spec_flag(value: bool) -> nat {
    if value {
        1
    } else {
        0
    }
}

/// Appends a truth value as one byte, 1 for true and 0 for false.
pub fn put_bool(out: &mut Vec<u8>, value: bool)
    ensures
        final(out)@ == old(out)@ + le_bytes(spec_flag(value), 1),
{
    let b: u8 = if value {
        1
    } else {
        0
    };
    out.push(b);
    proof {
        reveal_with_fuel(le_bytes, 2);
        assert(out@ =~= old(out)@ + le_bytes(spec_flag(value), 1));
    }
}

/// Appends a byte string behind its length.
pub fn put_blob(out: &mut Vec<u8>, data: &[u8])
    ensures
        final(out)@ == old(out)@ + spec_blob(data@),
{
    put_uint(out, data.len() as u128, 8);
    let ghost mid: Seq<u8> = out@;
    out.extend_from_slice(data);
    assert(out@ =~= mid + data@);
    assert(out@ =~= old(out)@ + spec_blob(data@));
}

/// A copy of a byte string.
pub fn copy_bytes(data: &Vec<u8>) -> (copy: Vec<u8>)
    ensures
        copy@ == data@,
{
    let copy: Vec<u8> = data.clone();
    assert(copy@ =~= data@);
    copy
}

/// What reading `width` bytes at `at` gives: the number they spell and the
/// offset behind them.
pub open spec fn spec_uint_at(bytes: Seq<u8>, at: int, width: int) -> Result<
    (nat, int),
    FrameError,
> {
    if at + width > usize::MAX {
        Err(FrameError::Oversized)
    } else if at + width > bytes.len() {
        Err(FrameError::Incomplete { needed: (at + width) as usize })
    } else {
        Ok((spec_number_at(bytes, at, width), at + width))
    }
}

/// What reading a byte string at `at` gives, with `limit` as the ceiling for
/// its length: the string and the offset behind it.
pub open spec fn spec_blob_at(bytes: Seq<u8>, at: int, limit: nat) -> Result<
    (Seq<u8>, int),
    FrameError,
> {
    match spec_uint_at(bytes, at, 8) {
        Err(e) => Err(e),
        Ok((n, start)) => if n > limit || start + n > usize::MAX {
            Err(FrameError::Oversized)
        } else if start + n > bytes.len() {
            Err(FrameError::Incomplete { needed: (start + n) as usize })
        } else {
            Ok((bytes.subrange(start, start + n), start + n))
        },
    }
}

/// The number spelled by the `width` bytes at `at`.
pub open spec fn spec_number_at(bytes: Seq<u8>, at: int, width: int) -> nat {
    le_value(bytes.subrange(at, at + width))
}

/// Reads the number spelled by the `width` bytes at `at`, which the input
/// holds.
pub fn number_at(bytes: &[u8], at: usize, width: usize) -> (v: u128)
    requires
        width <= 16,
        at + width <= bytes.len(),
    ensures
        v == spec_number_at(bytes@, at as int, width as int),
        v < pow256(width as nat),
{
    let mut acc: u128 = 0;
    let mut i: usize = width;
    assert(bytes@.subrange(at + i, at + width).len() == 0);
    while i > 0
        invariant
            i <= width <= 16,
            at + width <= bytes.len(),
            acc == le_value(bytes@.subrange(at + i, at + width)),
        decreases i,
    {
        let ghost tail: Seq<u8> = bytes@.subrange(at + i, at + width);
        let ghost whole: Seq<u8> = bytes@.subrange(at + i - 1, at + width);
        proof {
            lemma_le_value_bound(tail);
            lemma_pow256_monotonic(tail.len(), 15);
            lemma_pow256_values();
            reveal_with_fuel(pow256, 17);
            assert(whole.skip(1) =~= tail);
            assert(whole[0] == bytes@[at + i - 1]);
        }
        i = i - 1;
        let b: u8 = bytes[at + i];
        acc = acc * 256 + (b as u128);
    }
    proof {
        lemma_le_value_bound(bytes@.subrange(at as int, at + width));
    }
    acc
}

/// Reads `width` bytes at `at` as a number.
pub fn uint_at(bytes: &[u8], at: usize, width: usize) -> (r: Result<(u128, usize), FrameError>)
    requires
        width <= 16,
        at <= bytes.len(),
    ensures
        match r {
            Ok((v, end)) => spec_uint_at(bytes@, at as int, width as int) == Ok::<
                (nat, int),
                FrameError,
            >((v as nat, end as int)),
            Err(e) => spec_uint_at(bytes@, at as int, width as int) == Err::<
                (nat, int),
                FrameError,
            >(e),
        },
{
    if width > usize::MAX - at {
        return Err(FrameError::Oversized);
    }
    let end: usize = at + width;
    if end > bytes.len() {
        return Err(FrameError::Incomplete { needed: end });
    }
    Ok((number_at(bytes, at, width), end))
}

/// Reads a discriminant at `at`.
pub fn u32_at(bytes: &[u8], at: usize) -> (r: Result<(u32, usize), FrameError>)
    requires
        at <= bytes.len(),
    ensures
        match r {
            Ok((v, end)) => spec_uint_at(bytes@, at as int, 4) == Ok::<(nat, int), FrameError>(
                (v as nat, end as int),
            ),
            Err(e) => spec_uint_at(bytes@, at as int, 4) == Err::<(nat, int), FrameError>(e),
        },
{
    match uint_at(bytes, at, 4) {
        Err(e) => Err(e),
        Ok((v, end)) => {
            proof {
                lemma_le_value_bound(bytes@.subrange(at as int, at + 4));
                lemma_pow256_values();
            }
            Ok((v as u32, end))
        },
    }
}

/// Reads a 64-bit number at `at`.
pub fn u64_at(bytes: &[u8], at: usize) -> (r: Result<(u64, usize), FrameError>)
    requires
        at <= bytes.len(),
    ensures
        match r {
            Ok((v, end)) => spec_uint_at(bytes@, at as int, 8) == Ok::<(nat, int), FrameError>(
                (v as nat, end as int),
            ),
            Err(e) => spec_uint_at(bytes@, at as int, 8) == Err::<(nat, int), FrameError>(e),
        },
{
    match uint_at(bytes, at, 8) {
        Err(e) => Err(e),
        Ok((v, end)) => {
            proof {
                lemma_le_value_bound(bytes@.subrange(at as int, at + 8));
                lemma_pow256_values();
            }
            Ok((v as u64, end))
        },
    }
}

/// Reads a seed-sized number at `at`.
pub fn u128_at(bytes: &[u8], at: usize) -> (r: Result<(u128, usize), FrameError>)
    requires
        at <= bytes.len(),
    ensures
        match r {
            Ok((v, end)) => spec_uint_at(bytes@, at as int, 16) == Ok::<(nat, int), FrameError>(
                (v as nat, end as int),
            ),
            Err(e) => spec_uint_at(bytes@, at as int, 16) == Err::<(nat, int), FrameError>(e),
        },
{
    uint_at(bytes, at, 16)
}

/// Reads a byte string at `at`, refusing one longer than `limit`.
pub fn blob_at(bytes: &[u8], at: usize, limit: usize) -> (r: Result<(Vec<u8>, usize), FrameError>)
    requires
        at <= bytes.len(),
    ensures
        match r {
            Ok((data, end)) => spec_blob_at(bytes@, at as int, limit as nat) == Ok::<
                (Seq<u8>, int),
                FrameError,
            >((data@, end as int)),
            Err(e) => spec_blob_at(bytes@, at as int, limit as nat) == Err::<
                (Seq<u8>, int),
                FrameError,
            >(e),
        },
{
    match u64_at(bytes, at) {
        Err(e) => Err(e),
        Ok((n, start)) => {
            if n > limit as u64 {
                return Err(FrameError::Oversized);
            }
            let len: usize = n as usize;
            if len > usize::MAX - start {
                return Err(FrameError::Oversized);
            }
            let end: usize = start + len;
            if end > bytes.len() {
                return Err(FrameError::Incomplete { needed: end });
            }
            let data: Vec<u8> = vstd::slice::slice_to_vec(
                vstd::slice::slice_subrange(bytes, start, end),
            );
            Ok((data, end))
        },
    }
}

/// A number written at `at` is read back from there.
pub proof fn lemma_uint_at_reads(bytes: Seq<u8>, at: int, value: nat, width: nat)
    requires
        bytes.len() <= usize::MAX,
        value < pow256(width),
        holds_at(bytes, at, le_bytes(value, width)),
    ensures
        spec_uint_at(bytes, at, width as int) == Ok::<(nat, int), FrameError>(
            (value, at + width),
        ),
{
    lemma_le_bytes_len(value, width);
    lemma_le_value_of_bytes(value, width);
}

/// What was read at `at` is what stands there.
pub proof fn lemma_uint_at_holds(bytes: Seq<u8>, at: int, width: nat)
    requires
        0 <= at,
        spec_uint_at(bytes, at, width as int) is Ok,
    ensures
        spec_uint_at(bytes, at, width as int)->Ok_0.1 == at + width,
        spec_uint_at(bytes, at, width as int)->Ok_0.0 < pow256(width),
        holds_at(bytes, at, le_bytes(spec_uint_at(bytes, at, width as int)->Ok_0.0, width)),
{
    let piece: Seq<u8> = bytes.subrange(at, at + width);
    lemma_le_value_bound(piece);
    lemma_le_bytes_of_value(piece);
    lemma_le_bytes_len(le_value(piece), width);
}

/// A byte string written at `at` is read back from there.
pub proof fn lemma_blob_at_reads(bytes: Seq<u8>, at: int, data: Seq<u8>, limit: nat)
    requires
        bytes.len() <= usize::MAX,
        data.len() <= limit,
        holds_at(bytes, at, spec_blob(data)),
    ensures
        spec_blob_at(bytes, at, limit) == Ok::<(Seq<u8>, int), FrameError>(
            (data, at + 8 + data.len()),
        ),
{
    lemma_le_bytes_len(data.len(), 8);
    let head: Seq<u8> = le_bytes(data.len(), 8);
    let piece: Seq<u8> = spec_blob(data);
    assert(piece.len() == 8 + data.len());
    assert(bytes.subrange(at, at + 8) =~= piece.subrange(0, 8));
    assert(piece.subrange(0, 8) =~= head);
    lemma_pow256_values();
    lemma_uint_at_reads(bytes, at, data.len(), 8);
    assert(bytes.subrange(at + 8, at + 8 + data.len()) =~= piece.subrange(
        8,
        8 + data.len() as int,
    ));
    assert(piece.subrange(8, 8 + data.len() as int) =~= data);
}

/// What was read as a byte string at `at` is what stands there.
pub proof fn lemma_blob_at_holds(bytes: Seq<u8>, at: int, limit: nat)
    requires
        0 <= at,
        spec_blob_at(bytes, at, limit) is Ok,
    ensures
        spec_blob_at(bytes, at, limit)->Ok_0.0.len() <= limit,
        spec_blob_at(bytes, at, limit)->Ok_0.1 == at + 8 + spec_blob_at(
            bytes,
            at,
            limit,
        )->Ok_0.0.len(),
        holds_at(bytes, at, spec_blob(spec_blob_at(bytes, at, limit)->Ok_0.0)),
{
    lemma_uint_at_holds(bytes, at, 8);
    let n: nat = spec_uint_at(bytes, at, 8)->Ok_0.0;
    let data: Seq<u8> = bytes.subrange(at + 8, at + 8 + n);
    assert(data.len() == n);
    lemma_le_bytes_len(n, 8);
    assert(bytes.subrange(at, at + 8 + n) =~= le_bytes(n, 8) + data);
}

/// Where a frame stands at `at` and holds the `width` low bytes of `value`
/// at its offset `offset`, those bytes spell `value`.
pub proof fn lemma_number_at_reads(
    bytes: Seq<u8>,
    at: int,
    frame: Seq<u8>,
    offset: int,
    value: nat,
    width: nat,
)
    requires
        holds_at(bytes, at, frame),
        holds_at(frame, offset, le_bytes(value, width)),
        value < pow256(width),
    ensures
        spec_number_at(bytes, at + offset, width as int) == value,
{
    lemma_le_bytes_len(value, width);
    lemma_le_value_of_bytes(value, width);
    assert(bytes.subrange(at + offset, at + offset + width) =~= frame.subrange(
        offset,
        offset + width,
    ));
}

/// The `width` bytes at `at` are the `width` low bytes of the number they
/// spell.
pub proof fn lemma_number_at_holds(bytes: Seq<u8>, at: int, width: nat)
    requires
        0 <= at,
        at + width <= bytes.len(),
    ensures
        spec_number_at(bytes, at, width as int) < pow256(width),
        holds_at(bytes, at, le_bytes(spec_number_at(bytes, at, width as int), width)),
{
    let piece: Seq<u8> = bytes.subrange(at, at + width);
    lemma_le_value_bound(piece);
    lemma_le_bytes_of_value(piece);
    lemma_le_bytes_len(le_value(piece), width);
}

/// `short` is a beginning of `long`.
pub open spec fn spec_begins(short: Seq<u8>, long: Seq<u8>) -> bool {
    &&& short.len() <= long.len()
    &&& long.subrange(0, short.len() as int) == short
}

/// How the answer of a reader on an input bounds its answer on a longer
/// input that begins with the first: a value and a refusal stay as they are;
/// a demand for more bytes stays as it is until the input reaches the length
/// demanded, and whatever is answered from there on ends at or behind that
/// length.
pub open spec fn spec_continues<T>(
    short: Result<(T, int), FrameError>,
    long: Result<(T, int), FrameError>,
    short_len: nat,
    long_len: nat,
) -> bool {
    match short {
        Ok(_) => long == short,
        Err(FrameError::Incomplete { needed }) => {
            &&& needed > short_len
            &&& long_len < needed ==> long == short
            &&& spec_reaches(long, needed as int)
        },
        Err(_) => long == short,
    }
}

/// An answer that ends at or behind `mark`: a value whose end is there, a
/// demand for at least that length, or a refusal.
pub open spec fn spec_reaches<T>(answer: Result<(T, int), FrameError>, mark: int) -> bool {
    match answer {
        Ok((_, end)) => end >= mark,
        Err(FrameError::Incomplete { needed }) => needed >= mark,
        Err(_) => true,
    }
}

/// Reading a number from a longer input.
pub proof fn lemma_uint_at_continues(bytes: Seq<u8>, longer: Seq<u8>, at: int, width: nat)
    requires
        spec_begins(bytes, longer),
        0 <= at <= bytes.len(),
    ensures
        spec_continues(
            spec_uint_at(bytes, at, width as int),
            spec_uint_at(longer, at, width as int),
            bytes.len(),
            longer.len(),
        ),
{
    if at + width <= bytes.len() {
        assert(longer.subrange(at, at + width) =~= bytes.subrange(at, at + width));
    }
}

/// Reading a byte string from a longer input.
pub proof fn lemma_blob_at_continues(bytes: Seq<u8>, longer: Seq<u8>, at: int, limit: nat)
    requires
        spec_begins(bytes, longer),
        0 <= at <= bytes.len(),
    ensures
        spec_continues(
            spec_blob_at(bytes, at, limit),
            spec_blob_at(longer, at, limit),
            bytes.len(),
            longer.len(),
        ),
{
    lemma_uint_at_continues(bytes, longer, at, 8);
    if at + 8 <= bytes.len() && at + 8 <= usize::MAX {
        let n: nat = le_value(bytes.subrange(at, at + 8));
        if n <= limit && at + 8 + n <= bytes.len() {
            assert(longer.subrange(at + 8, at + 8 + n) =~= bytes.subrange(at + 8, at + 8 + n));
        }
    }
}

} // verus!
