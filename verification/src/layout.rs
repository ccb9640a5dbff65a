//! The folded view of the database: `rows` rows of `chunk` consecutive
//! records each, every row padded with zero bytes to the same width.
//!
//! The multi-server scheme selects one row of this matrix and the
//! single-server scheme one record inside the row, so both sides of the
//! protocol must derive the same numbers from the same parameters.

use vstd::prelude::*;

verus! {

/// Number of records per row: the least `c` with `rows * c >= records`.
pub open spec fn spec_chunk_size(records: nat, rows: nat) -> nat
    recommends
        rows > 0,
{
    ((records + rows - 1) / (rows as int)) as nat
}

/// The parameters that both sides agree on describe a folded database:
/// `records` records of `element_size` bytes each in `rows` rows, served by
/// `servers` servers of which fewer than `redundancy` may collude.
///
/// The last three conjuncts are limits of the machine: the single-server
/// scheme counts records and bytes in 32 bits, and one row has to fit in
/// memory.
pub open spec fn spec_valid_shape(
    records: nat,
    element_size: nat,
    servers: nat,
    redundancy: nat,
    rows: nat,
) -> bool {
    &&& records > 0
    &&& element_size > 0
    &&& servers >= 2
    &&& 0 < redundancy <= servers
    &&& 0 < rows < records
    &&& rows % (8 * servers) == 0
    &&& spec_chunk_size(records, rows) <= u32::MAX
    &&& element_size <= u32::MAX
    &&& spec_chunk_size(records, rows) * element_size <= usize::MAX
}

/// The records of a database as byte strings.
pub open spec fn spec_records(db: Seq<Vec<u8>>) -> Seq<Seq<u8>> {
    Seq::new(db.len(), |i: int| db[i]@)
}

/// Every record has the same width.
pub open spec fn spec_uniform(db: Seq<Seq<u8>>, element_size: nat) -> bool {
    forall|i: int| 0 <= i < db.len() ==> (#[trigger] db[i]).len() == element_size
}

/// Byte `j` of row `row`: a byte of record `row * chunk + j / element_size`
/// where the database has such a record, zero where it has not.
pub open spec fn spec_folded_byte(
    db: Seq<Seq<u8>>,
    element_size: nat,
    chunk: nat,
    row: int,
    j: int,
) -> u8 {
    let record: int = row * chunk + j / (element_size as int);
    if record < db.len() {
        db[record][j % (element_size as int)]
    } else {
        0u8
    }
}

/// Row `row` of the folded database.
pub open spec fn spec_folded_row(db: Seq<Seq<u8>>, element_size: nat, chunk: nat, row: int) -> Seq<
    u8,
> {
    Seq::new(chunk * element_size, |j: int| spec_folded_byte(db, element_size, chunk, row, j))
}

/// The buffer handed to the single-server scheme: `raw` cut or padded with
/// zero bytes to `width` bytes.
pub open spec fn spec_row_buffer(raw: Seq<u8>, width: nat) -> Seq<u8> {
    Seq::new(
        width,
        |j: int|
            if j < raw.len() {
                raw[j]
            } else {
                0u8
            },
    )
}

/// The arguments with which the single-server scheme is set up on either
/// side: how many records it selects from, how wide a record is, and its
/// own three parameters.
#[derive(Clone, Copy, Debug, PartialEq, Eq, Structural)]
pub struct SealPirShape {
    pub num_elements: u32,
    pub element_size: u32,
    pub poly_degree: u32,
    pub log: u32,
    pub d: u32,
}

/// Rounding a quotient up, stated without rounding.
pub proof fn lemma_ceil_div(n: int, r: int)
    requires
        n >= 0,
        r > 0,
    ensures
        (n + r - 1) / r == if n % r == 0 {
            n / r
        } else {
            n / r + 1
        },
        0 <= n / r <= n,
        n % r != 0 ==> n / r < n,
        n <= r * ((n + r - 1) / r) < n + r,
        n > 0 ==> (n + r - 1) / r > 0,
{
    vstd::arithmetic::div_mod::lemma_fundamental_div_mod(n, r);
    vstd::arithmetic::div_mod::lemma_fundamental_div_mod(n + r - 1, r);
    let q: int = n / r;
    let m: int = n % r;
    let q2: int = (n + r - 1) / r;
    let m2: int = (n + r - 1) % r;
    assert(n == r * q + m);
    assert(n + r - 1 == r * q2 + m2);
    assert(0 <= m < r && 0 <= m2 < r);
    assert(r * (q2 - q) == r * q2 - r * q) by (nonlinear_arith);
    if m == 0 {
        assert(q2 - q == 0) by (nonlinear_arith)
            requires
                r * (q2 - q) == r - 1 - m2,
                0 <= m2 < r,
                r > 0,
        ;
    } else {
        assert(q2 - q == 1) by (nonlinear_arith)
            requires
                r * (q2 - q) == m + r - 1 - m2,
                0 <= m2 < r,
                0 < m < r,
                r > 0,
        ;
    }
    assert(0 <= q <= n && (m != 0 ==> q < n)) by (nonlinear_arith)
        requires
            n == r * q + m,
            0 <= m < r,
            r > 0,
            n >= 0,
    ;
    assert(n > 0 ==> q2 > 0) by (nonlinear_arith)
        requires
            n + r - 1 == r * q2 + m2,
            0 <= m2 < r,
            r > 0,
    ;
}

/// The rows hold every record and no row could be shorter: the number of
/// records per row is the least that, taken once for every row, reaches the
/// number of records.
pub proof fn lemma_chunk_size_is_least(records: nat, rows: nat, other: nat)
    requires
        rows > 0,
    ensures
        rows * spec_chunk_size(records, rows) >= records,
        rows * other >= records ==> other >= spec_chunk_size(records, rows),
{
    let c: int = spec_chunk_size(records, rows) as int;
    lemma_ceil_div(records as int, rows as int);
    if rows * other >= records {
        assert(other >= c) by (nonlinear_arith)
            requires
                rows * other >= records,
                rows * c < records + rows,
                rows > 0,
        ;
    }
}

/// Inside block `k` of width `s`, dividing by `s` gives `k` and the
/// remainder is the offset into the block.
pub proof fn lemma_block(j: int, s: int, k: int)
    requires
        s > 0,
        k * s <= j < k * s + s,
    ensures
        j / s == k,
        j % s == j - k * s,
{
    vstd::arithmetic::div_mod::lemma_fundamental_div_mod_converse(j, s, k, j - k * s);
}

/// The index of a record is its row times the row length plus its column,
/// the row lies inside the matrix and the column inside the row.
pub proof fn lemma_index_split(records: nat, rows: nat, index: int)
    requires
        rows > 0,
        0 <= index < records,
    ensures
        spec_chunk_size(records, rows) > 0,
        index == (index / (spec_chunk_size(records, rows) as int)) * spec_chunk_size(records, rows)
            + index % (spec_chunk_size(records, rows) as int),
        0 <= index / (spec_chunk_size(records, rows) as int) < rows,
        0 <= index % (spec_chunk_size(records, rows) as int) < spec_chunk_size(records, rows),
{
    let c: int = spec_chunk_size(records, rows) as int;
    lemma_ceil_div(records as int, rows as int);
    vstd::arithmetic::div_mod::lemma_fundamental_div_mod(index, c);
    let q: int = index / c;
    let m: int = index % c;
    assert(c * q == q * c) by (nonlinear_arith);
    assert(0 <= q < rows) by (nonlinear_arith)
        requires
            index == c * q + m,
            0 <= m < c,
            0 <= index < rows * c,
            rows > 0,
    ;
}

/// The record with index `index` stands in row `index / chunk` of the folded
/// database, at column `index % chunk`, whatever padding the row carries.
pub proof fn lemma_record_in_row(db: Seq<Seq<u8>>, element_size: nat, rows: nat, index: int)
    requires
        rows > 0,
        element_size > 0,
        0 <= index < db.len(),
        spec_uniform(db, element_size),
    ensures
        ({
            let chunk: nat = spec_chunk_size(db.len(), rows);
            let row: int = index / (chunk as int);
            let column: int = index % (chunk as int);
            &&& 0 <= row < rows
            &&& 0 <= column < chunk
            &&& column * element_size + element_size <= chunk * element_size
            &&& spec_folded_row(db, element_size, chunk, row).subrange(
                column * element_size,
                column * element_size + element_size,
            ) == db[index]
        }),
{
    let chunk: nat = spec_chunk_size(db.len(), rows);
    let c: int = chunk as int;
    let s: int = element_size as int;
    let row: int = index / c;
    let column: int = index % c;
    lemma_index_split(db.len(), rows, index);
    assert(column * s + s <= c * s) by (nonlinear_arith)
        requires
            0 <= column < c,
            s > 0,
    ;
    let folded: Seq<u8> = spec_folded_row(db, element_size, chunk, row);
    let piece: Seq<u8> = folded.subrange(column * s, column * s + s);
    assert(db[index].len() == s);
    assert forall|t: int| 0 <= t < s implies piece[t] == db[index][t] by {
        let j: int = column * s + t;
        lemma_block(j, s, column);
        assert(folded[j] == spec_folded_byte(db, element_size, chunk, row, j));
        assert(row * chunk + j / s == index);
    }
    assert(piece =~= db[index]);
}

/// A row of full width is handed on as it is.
pub proof fn lemma_row_buffer_of_full_row(raw: Seq<u8>)
    ensures
        spec_row_buffer(raw, raw.len()) == raw,
{
    assert(spec_row_buffer(raw, raw.len()) =~= raw);
}

/// What the two schemes are composed for: where the multi-server scheme
/// hands back row `index / chunk` of the folded database, the buffer made of
/// it holds record `index` at column `index % chunk`, so that the
/// single-server scheme, asked for that column, hands back the record.
pub proof fn lemma_buffer_holds_record(db: Seq<Seq<u8>>, element_size: nat, rows: nat, index: int)
    requires
        rows > 0,
        element_size > 0,
        0 <= index < db.len(),
        spec_uniform(db, element_size),
    ensures
        ({
            let chunk: nat = spec_chunk_size(db.len(), rows);
            let row: Seq<u8> = spec_folded_row(db, element_size, chunk, index / (chunk as int));
            let column: int = index % (chunk as int);
            spec_row_buffer(row, chunk * element_size).subrange(
                column * element_size,
                column * element_size + element_size,
            ) == db[index]
        }),
{
    let chunk: nat = spec_chunk_size(db.len(), rows);
    let row: Seq<u8> = spec_folded_row(db, element_size, chunk, index / (chunk as int));
    lemma_record_in_row(db, element_size, rows, index);
    lemma_row_buffer_of_full_row(row);
}

/// Computes the number of records per row.
pub fn chunk_size(records: usize, rows: usize) -> (c: usize)
    requires
        rows > 0,
    ensures
        c == spec_chunk_size(records as nat, rows as nat),
{
    let q: usize = records / rows;
    let r: usize = records % rows;
    proof {
        lemma_ceil_div(records as int, rows as int);
    }
    if r == 0 {
        q
    } else {
        q + 1
    }
}

/// Decides whether the parameters describe a folded database.
pub fn valid_shape(
    records: usize,
    element_size: usize,
    servers: usize,
    redundancy: usize,
    rows: usize,
) -> (ok: bool)
    ensures
        ok == spec_valid_shape(
            records as nat,
            element_size as nat,
            servers as nat,
            redundancy as nat,
            rows as nat,
        ),
{
    if records == 0 || element_size == 0 || servers < 2 || redundancy == 0 || redundancy
        > servers || rows == 0 || rows >= records {
        return false;
    }
    if servers > usize::MAX / 8 {
        proof {
            vstd::arithmetic::div_mod::lemma_small_mod(rows as nat, (8 * servers) as nat);
        }
        return false;
    }
    if rows % (8 * servers) != 0 {
        return false;
    }
    let chunk: usize = chunk_size(records, rows);
    if chunk > u32::MAX as usize || element_size > u32::MAX as usize {
        return false;
    }
    proof {
        assert(chunk * element_size <= 0xffff_ffff * 0xffff_ffff) by (nonlinear_arith)
            requires
                chunk <= 0xffff_ffff,
                element_size <= 0xffff_ffff,
        ;
    }
    let width: u64 = (chunk as u64) * (element_size as u64);
    width <= usize::MAX as u64
}

/// Decides whether every record of `db` is `element_size` bytes wide.
pub fn uniform(db: &Vec<Vec<u8>>, element_size: usize) -> (ok: bool)
    ensures
        ok == spec_uniform(spec_records(db@), element_size as nat),
{
    let ghost model: Seq<Seq<u8>> = spec_records(db@);
    let mut i: usize = 0;
    while i < db.len()
        invariant
            i <= db.len(),
            model == spec_records(db@),
            forall|j: int| 0 <= j < i ==> (#[trigger] model[j]).len() == element_size,
        decreases db.len() - i,
    {
        assert(model[i as int] == db[i as int]@);
        if db[i].len() != element_size {
            return false;
        }
        i = i + 1;
    }
    true
}

/// Cuts or pads `raw` to `width` bytes.
pub fn row_buffer(raw: Vec<u8>, width: usize) -> (buffer: Vec<u8>)
    ensures
        buffer@ == spec_row_buffer(raw@, width as nat),
{
    let mut buffer: Vec<u8> = raw;
    buffer.resize(width, 0u8);
    assert(buffer@ =~= spec_row_buffer(raw@, width as nat));
    buffer
}

/// Folds the database into `rows` rows of `chunk` records each, in order,
/// where `chunk` is the least number that lets every record fall into a row.
/// Slots behind the last record are filled with zero bytes, so that every row
/// is `chunk * element_size` bytes wide.
pub fn fold_database(db: &Vec<Vec<u8>>, element_size: usize, rows: usize) -> (folded: Vec<Vec<u8>>)
    requires
        rows > 0,
        element_size > 0,
        spec_uniform(spec_records(db@), element_size as nat),
        spec_chunk_size(db.len() as nat, rows as nat) * element_size <= usize::MAX,
    ensures
        folded.len() == rows,
        forall|r: int|
            0 <= r < rows ==> (#[trigger] folded[r])@ == spec_folded_row(
                spec_records(db@),
                element_size as nat,
                spec_chunk_size(db.len() as nat, rows as nat),
                r,
            ),
{
    let records: usize = db.len();
    let chunk: usize = chunk_size(records, rows);
    let ghost model: Seq<Seq<u8>> = spec_records(db@);
    let mut folded: Vec<Vec<u8>> = Vec::new();
    let mut next: usize = 0;
    let mut r: usize = 0;
    while r < rows
        invariant
            r <= rows,
            records == db.len(),
            chunk == spec_chunk_size(records as nat, rows as nat),
            chunk * element_size <= usize::MAX,
            element_size > 0,
            model == spec_records(db@),
            spec_uniform(model, element_size as nat),
            folded.len() == r,
            next <= records,
            next == if r * chunk <= records {
                r * chunk
            } else {
                records as int
            },
            forall|q: int|
                0 <= q < r ==> (#[trigger] folded[q])@ == spec_folded_row(
                    model,
                    element_size as nat,
                    chunk as nat,
                    q,
                ),
        decreases rows - r,
    {
        let mut row: Vec<u8> = Vec::new();
        let mut k: usize = 0;
        assert(0 * element_size == 0) by (nonlinear_arith);
        while k < chunk
            invariant
                k <= chunk,
                r < rows,
                records == db.len(),
                chunk * element_size <= usize::MAX,
                element_size > 0,
                model == spec_records(db@),
                spec_uniform(model, element_size as nat),
                next <= records,
                next == if r * chunk + k <= records {
                    r * chunk + k
                } else {
                    records as int
                },
                row.len() == k * element_size,
                forall|j: int|
                    0 <= j < row.len() ==> #[trigger] row[j] == spec_folded_byte(
                        model,
                        element_size as nat,
                        chunk as nat,
                        r as int,
                        j,
                    ),
            decreases chunk - k,
        {
            let ghost before: Seq<u8> = row@;
            let ghost base: int = k * element_size;
            proof {
                assert((k + 1) * element_size == k * element_size + element_size)
                    by (nonlinear_arith);
                assert((k + 1) * element_size <= chunk * element_size) by (nonlinear_arith)
                    requires
                        k + 1 <= chunk,
                        element_size > 0,
                ;
            }
            if next < records {
                assert(model[next as int] == db[next as int]@);
                assert(model[next as int].len() == element_size);
                row.extend_from_slice(db[next].as_slice());
                proof {
                    assert forall|j: int| 0 <= j < row.len() implies #[trigger] row[j]
                        == spec_folded_byte(
                        model,
                        element_size as nat,
                        chunk as nat,
                        r as int,
                        j,
                    ) by {
                        if j >= base {
                            lemma_block(j, element_size as int, k as int);
                            assert(row[j] == db[next as int]@[j - base]);
                        } else {
                            assert(row[j] == before[j]);
                        }
                    }
                }
                next = next + 1;
            } else {
                row.resize(row.len() + element_size, 0u8);
                proof {
                    assert forall|j: int| 0 <= j < row.len() implies #[trigger] row[j]
                        == spec_folded_byte(
                        model,
                        element_size as nat,
                        chunk as nat,
                        r as int,
                        j,
                    ) by {
                        if j >= base {
                            lemma_block(j, element_size as int, k as int);
                            assert(row[j] == 0u8);
                        } else {
                            assert(row@.subrange(0, base) == before);
                            assert(row[j] == row@.subrange(0, base)[j]);
                        }
                    }
                }
            }
            k = k + 1;
        }
        proof {
            assert(row@ =~= spec_folded_row(model, element_size as nat, chunk as nat, r as int));
            assert((r + 1) * chunk == r * chunk + chunk) by (nonlinear_arith);
        }
        folded.push(row);
        r = r + 1;
    }
    folded
}

} // verus!
