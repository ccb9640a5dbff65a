//! The client of the hybrid scheme: where a record lies in the folded
//! database, which messages go to which server, and in which order the
//! exchange with the servers runs.

use vstd::prelude::*;
use crate::layout::SealPirShape;
use crate::layout::spec_valid_shape;
use crate::layout::spec_chunk_size;
use crate::layout::spec_records;
use crate::layout::chunk_size;
use crate::layout::lemma_index_split;
use crate::types::HybridPirMessage;
use crate::types::HybridPirFrame;
use crate::wire::copy_bytes;
use crate::bits::RaidPirQuery;
use crate::bits::spec_query_bits;
use crate::bits::spec_pack;
use crate::bits::spec_unpack;
use crate::bits::lemma_unpack_pack;

verus! {

/// Why a query gave no record.
#[derive(Clone, Copy, Debug, PartialEq, Eq, Structural)]
pub enum QueryError {
    /// Connecting, sending or receiving failed on some stream.
    Transport,
    /// A server sent bytes that are no frame, or a message of another kind
    /// than the one that was due.
    MalformedFrame,
    /// One of the two retrieval schemes failed, or handed back another
    /// number of queries than there are servers.
    Primitive,
    /// The driver reported something that was not asked for.
    OutOfTurn,
}

/// The messages of a round as what they hold, in the order of the servers.
pub open spec fn spec_frames(messages: Seq<HybridPirMessage>) -> Seq<HybridPirFrame> {
    Seq::new(messages.len(), |i: int| messages[i]@)
}

/// Every message of the round is a seed.
pub open spec fn spec_all_seeds(frames: Seq<HybridPirFrame>) -> bool {
    forall|i: int| 0 <= i < frames.len() ==> (#[trigger] frames[i]) is Seed
}

/// The seeds of a round, each at the position of the server that sent it.
pub open spec fn spec_seeds(frames: Seq<HybridPirFrame>) -> Seq<u128> {
    Seq::new(frames.len(), |i: int| frames[i]->Seed_0)
}

/// Every message of the round is a response.
pub open spec fn spec_all_responses(frames: Seq<HybridPirFrame>) -> bool {
    forall|i: int| 0 <= i < frames.len() ==> (#[trigger] frames[i]) is Response
}

/// The replies of a round, each at the position of the server that sent it.
pub open spec fn spec_responses(frames: Seq<HybridPirFrame>) -> Seq<Seq<u8>> {
    Seq::new(frames.len(), |i: int| frames[i]->Response_0)
}

/// A round of `servers` greetings.
pub open spec fn spec_hello_round(servers: nat) -> Seq<HybridPirFrame> {
    Seq::new(servers, |i: int| HybridPirFrame::Hello)
}

/// The queries of the multi-server scheme as the bits they hold, in the
/// order of the servers.
pub open spec fn spec_queries(queries: Seq<RaidPirQuery>) -> Seq<Seq<bool>> {
    Seq::new(queries.len(), |i: int| spec_query_bits(queries[i]))
}

/// The round of queries: server `i` gets the bytes that carry the `i`-th
/// query of the multi-server scheme; all get the same key and the same query
/// of the single-server scheme.
pub open spec fn spec_query_round(raidpir: Seq<Seq<bool>>, key: Seq<u8>, sealpir: Seq<u8>) -> Seq<
    HybridPirFrame,
> {
    Seq::new(raidpir.len(), |i: int| HybridPirFrame::Query(spec_pack(raidpir[i]), key, sealpir))
}

/// In a shape that can be folded the rows come in whole bytes: a query with
/// one bit per row takes an eighth as many bytes as there are rows, and comes
/// out of the wire as it went in.
pub proof fn lemma_query_takes_whole_bytes(
    records: nat,
    element_size: nat,
    servers: nat,
    redundancy: nat,
    rows: nat,
    bits: Seq<bool>,
)
    requires
        spec_valid_shape(records, element_size, servers, redundancy, rows),
        bits.len() == rows,
    ensures
        rows % 8 == 0,
        spec_pack(bits).len() == rows / 8,
        spec_unpack(spec_pack(bits)) == bits,
{
    let step: int = 8 * (servers as int);
    vstd::arithmetic::div_mod::lemma_fundamental_div_mod(rows as int, step);
    let q: int = rows as int / step;
    assert(step * q == 8 * (servers * q)) by (nonlinear_arith)
        requires
            step == 8 * servers,
    ;
    assert(rows == 8 * (servers * q));
    lemma_unpack_pack(bits);
}

/// The seeds of a round of replies, if every reply is a seed.
pub fn collect_seeds(replies: &Vec<HybridPirMessage>) -> (seeds: Option<Vec<u128>>)
    ensures
        seeds is Some <==> spec_all_seeds(spec_frames(replies@)),
        seeds is Some ==> seeds->Some_0@ == spec_seeds(spec_frames(replies@)),
{
    let ghost frames: Seq<HybridPirFrame> = spec_frames(replies@);
    let mut seeds: Vec<u128> = Vec::new();
    let mut i: usize = 0;
    while i < replies.len()
        invariant
            i <= replies.len(),
            frames == spec_frames(replies@),
            seeds.len() == i,
            forall|j: int| 0 <= j < i ==> (#[trigger] frames[j]) is Seed,
            forall|j: int| 0 <= j < i ==> #[trigger] seeds[j] == frames[j]->Seed_0,
        decreases replies.len() - i,
    {
        assert(frames[i as int] == replies[i as int]@);
        match &replies[i] {
            HybridPirMessage::Seed(seed) => {
                seeds.push(*seed);
            },
            _ => {
                assert(!(frames[i as int] is Seed));
                return None;
            },
        }
        i = i + 1;
    }
    assert(seeds@ =~= spec_seeds(frames));
    Some(seeds)
}

/// The replies of a round, if every message of the round is a response.
pub fn collect_responses(replies: &Vec<HybridPirMessage>) -> (payloads: Option<Vec<Vec<u8>>>)
    ensures
        payloads is Some <==> spec_all_responses(spec_frames(replies@)),
        payloads is Some ==> spec_records(payloads->Some_0@) == spec_responses(
            spec_frames(replies@),
        ),
{
    let ghost frames: Seq<HybridPirFrame> = spec_frames(replies@);
    let mut payloads: Vec<Vec<u8>> = Vec::new();
    let mut i: usize = 0;
    while i < replies.len()
        invariant
            i <= replies.len(),
            frames == spec_frames(replies@),
            payloads.len() == i,
            forall|j: int| 0 <= j < i ==> (#[trigger] frames[j]) is Response,
            forall|j: int| 0 <= j < i ==> (#[trigger] payloads[j])@ == frames[j]->Response_0,
        decreases replies.len() - i,
    {
        assert(frames[i as int] == replies[i as int]@);
        match &replies[i] {
            HybridPirMessage::Response(reply) => {
                payloads.push(copy_bytes(reply));
            },
            _ => {
                assert(!(frames[i as int] is Response));
                return None;
            },
        }
        i = i + 1;
    }
    assert(spec_records(payloads@) =~= spec_responses(frames));
    Some(payloads)
}

/// A round of `servers` greetings.
pub fn hello_round(servers: usize) -> (round: Vec<HybridPirMessage>)
    ensures
        spec_frames(round@) == spec_hello_round(servers as nat),
{
    let mut round: Vec<HybridPirMessage> = Vec::new();
    let mut i: usize = 0;
    while i < servers
        invariant
            i <= servers,
            round.len() == i,
            forall|j: int| 0 <= j < i ==> (#[trigger] round[j])@ == HybridPirFrame::Hello,
        decreases servers - i,
    {
        round.push(HybridPirMessage::Hello);
        i = i + 1;
    }
    assert(spec_frames(round@) =~= spec_hello_round(servers as nat));
    round
}

/// The round of queries: one message per query of the multi-server scheme,
/// in order, each with a copy of the key and of the query of the
/// single-server scheme.
pub fn query_round(raidpir: &Vec<RaidPirQuery>, key: &Vec<u8>, sealpir: &Vec<u8>) -> (round: Vec<
    HybridPirMessage,
>)
    ensures
        spec_frames(round@) == spec_query_round(spec_queries(raidpir@), key@, sealpir@),
{
    let mut round: Vec<HybridPirMessage> = Vec::new();
    let mut i: usize = 0;
    while i < raidpir.len()
        invariant
            i <= raidpir.len(),
            round.len() == i,
            forall|j: int|
                0 <= j < i ==> (#[trigger] round[j])@ == HybridPirFrame::Query(
                    spec_pack(spec_query_bits(raidpir[j])),
                    key@,
                    sealpir@,
                ),
        decreases raidpir.len() - i,
    {
        round.push(
            HybridPirMessage::Query(raidpir[i].to_wire(), copy_bytes(key), copy_bytes(sealpir)),
        );
        i = i + 1;
    }
    assert(spec_frames(round@) =~= spec_query_round(spec_queries(raidpir@), key@, sealpir@));
    round
}

/// How far a query has come.
#[derive(Clone, Copy, Debug, PartialEq, Eq, Structural)]
pub enum ClientPhase {
    /// The streams to the servers are being opened.
    Connecting,
    /// Every server was greeted and owes a seed.
    AwaitSeeds,
    /// The two schemes are making their queries.
    AwaitQueries,
    /// Every server got its query and owes a response.
    AwaitResponses,
    /// The responses are being decoded and combined.
    AwaitRecord,
    /// The query has ended, with a record or without.
    Done,
}

/// The state of one query: how far it has come and which record it is for.
#[derive(Clone, Copy, Debug, PartialEq, Eq, Structural)]
pub struct ClientState {
    pub phase: ClientPhase,
    pub index: usize,
}

/// What the driver reports back after it has done what was asked.
#[derive(Debug, PartialEq, Eq)]
pub enum ClientEvent {
    /// One stream per server is open.
    Connected,
    /// One message from every server, in the order of the servers.
    Replies(Vec<HybridPirMessage>),
    /// The queries of the multi-server scheme, one per server and in their
    /// order, and the query of the single-server scheme.
    Queries(Vec<RaidPirQuery>, Vec<u8>),
    /// The record that decoding and combining gave.
    Record(Vec<u8>),
    /// Some server sent bytes that are no frame.
    Malformed,
    /// One of the two schemes failed.
    PrimitiveFailed,
    /// Connecting, sending or receiving failed on some stream.
    Failed,
}

/// What a [`ClientEvent`] holds.
pub enum ClientEventView {
    Connected,
    Replies(Seq<HybridPirFrame>),
    Queries(Seq<Seq<bool>>, Seq<u8>),
    Record(Seq<u8>),
    Malformed,
    PrimitiveFailed,
    Failed,
}

impl View for ClientEvent {
    type V = ClientEventView;

    open spec fn view(&self) -> ClientEventView {
        match *self {
            ClientEvent::Connected => ClientEventView::Connected,
            ClientEvent::Replies(replies) => ClientEventView::Replies(spec_frames(replies@)),
            ClientEvent::Queries(raidpir, sealpir) => ClientEventView::Queries(
                spec_queries(raidpir@),
                sealpir@,
            ),
            ClientEvent::Record(record) => ClientEventView::Record(record@),
            ClientEvent::Malformed => ClientEventView::Malformed,
            ClientEvent::PrimitiveFailed => ClientEventView::PrimitiveFailed,
            ClientEvent::Failed => ClientEventView::Failed,
        }
    }
}

/// What the driver is asked to do next.
#[derive(Debug, PartialEq, Eq)]
pub enum ClientAction {
    /// Open one stream per server.
    Connect,
    /// Send message `i` to server `i` and receive one message from each.
    Exchange(Vec<HybridPirMessage>),
    /// Let the multi-server scheme make its queries for row `raidpir_index`
    /// from the seeds, seed `i` being that of server `i`, and the
    /// single-server scheme its query for column `sealpir_index`.
    Query { raidpir_index: usize, sealpir_index: u32, seeds: Vec<u128> },
    /// Decode every reply for column `sealpir_index` and combine the results,
    /// reply `i` being that of server `i`.
    Combine { sealpir_index: u32, replies: Vec<Vec<u8>> },
    /// Close the streams and hand out the result.
    Finish(Result<Vec<u8>, QueryError>),
}

/// What a [`ClientAction`] holds.
pub enum ClientActionView {
    Connect,
    Exchange(Seq<HybridPirFrame>),
    Query { raidpir_index: usize, sealpir_index: u32, seeds: Seq<u128> },
    Combine { sealpir_index: u32, replies: Seq<Seq<u8>> },
    Finish(Result<Seq<u8>, QueryError>),
}

impl View for ClientAction {
    type V = ClientActionView;

    open spec fn view(&self) -> ClientActionView {
        match *self {
            ClientAction::Connect => ClientActionView::Connect,
            ClientAction::Exchange(round) => ClientActionView::Exchange(spec_frames(round@)),
            ClientAction::Query { raidpir_index, sealpir_index, seeds } => ClientActionView::Query {
                raidpir_index,
                sealpir_index,
                seeds: seeds@,
            },
            ClientAction::Combine { sealpir_index, replies } => ClientActionView::Combine {
                sealpir_index,
                replies: spec_records(replies@),
            },
            ClientAction::Finish(Ok(record)) => ClientActionView::Finish(Ok(record@)),
            ClientAction::Finish(Err(e)) => ClientActionView::Finish(Err(e)),
        }
    }
}

/// How many steps a query in this phase has behind it.
pub open spec fn spec_client_rank(phase: ClientPhase) -> nat {
    match phase {
        ClientPhase::Connecting => 0,
        ClientPhase::AwaitSeeds => 1,
        ClientPhase::AwaitQueries => 2,
        ClientPhase::AwaitResponses => 3,
        ClientPhase::AwaitRecord => 4,
        ClientPhase::Done => 5,
    }
}

/// The end of a query without a record.
pub open spec fn spec_client_abort(state: ClientState, error: QueryError) -> (
    ClientState,
    ClientActionView,
) {
    (
        ClientState { phase: ClientPhase::Done, index: state.index },
        ClientActionView::Finish(Err(error)),
    )
}

/// The client's knowledge of the database and of the two schemes: all that
/// is needed to say where a record lies and what is sent to whom.
#[derive(Debug)]
pub struct HybridPirClient {
    db_len: usize,
    element_size: usize,
    raidpir_servers: usize,
    raidpir_redundancy: usize,
    raidpir_size: usize,
    raidpir_chunksize: usize,
    sealpir_poly_degree: u32,
    sealpir_log: u32,
    sealpir_d: u32,
    sealpir_key: Vec<u8>,
}

impl HybridPirClient {
    #[verifier::type_invariant]
    spec fn well_formed(&self) -> bool {
        &&& spec_valid_shape(
            self.db_len as nat,
            self.element_size as nat,
            self.raidpir_servers as nat,
            self.raidpir_redundancy as nat,
            self.raidpir_size as nat,
        )
        &&& self.raidpir_chunksize == spec_chunk_size(
            self.db_len as nat,
            self.raidpir_size as nat,
        )
    }

    /// Number of records of the database.
    pub closed spec fn spec_db_len(&self) -> nat {
        self.db_len as nat
    }

    /// Width of a record in bytes.
    pub closed spec fn spec_element_size(&self) -> nat {
        self.element_size as nat
    }

    /// Number of servers.
    pub closed spec fn spec_servers(&self) -> nat {
        self.raidpir_servers as nat
    }

    /// Number of servers that must collude to learn the row asked for.
    pub closed spec fn spec_redundancy(&self) -> nat {
        self.raidpir_redundancy as nat
    }

    /// Number of rows of the folded database.
    pub closed spec fn spec_rows(&self) -> nat {
        self.raidpir_size as nat
    }

    /// Number of records per row.
    pub open spec fn spec_chunk(&self) -> nat {
        spec_chunk_size(self.spec_db_len(), self.spec_rows())
    }

    /// The evaluation key of the single-server scheme.
    pub closed spec fn spec_key(&self) -> Seq<u8> {
        self.sealpir_key@
    }

    /// The arguments for the single-server scheme.
    pub closed spec fn spec_sealpir_shape(&self) -> SealPirShape {
        SealPirShape {
            num_elements: self.raidpir_chunksize as u32,
            element_size: self.element_size as u32,
            poly_degree: self.sealpir_poly_degree,
            log: self.sealpir_log,
            d: self.sealpir_d,
        }
    }

    /// A client for a database of `db_len` records of `element_size` bytes,
    /// folded into `raidpir_size` rows and held by `raidpir_servers` servers.
    /// `sealpir_key` is the evaluation key that the single-server scheme made
    /// for this client.
    pub fn new(
        db_len: usize,
        element_size: usize,
        raidpir_servers: usize,
        raidpir_redundancy: usize,
        raidpir_size: usize,
        sealpir_poly_degree: u32,
        sealpir_log: u32,
        sealpir_d: u32,
        sealpir_key: Vec<u8>,
    ) -> (client: Self)
        requires
            spec_valid_shape(
                db_len as nat,
                element_size as nat,
                raidpir_servers as nat,
                raidpir_redundancy as nat,
                raidpir_size as nat,
            ),
        ensures
            client.spec_db_len() == db_len,
            client.spec_element_size() == element_size,
            client.spec_servers() == raidpir_servers,
            client.spec_redundancy() == raidpir_redundancy,
            client.spec_rows() == raidpir_size,
            client.spec_key() == sealpir_key@,
            client.spec_sealpir_shape() == (SealPirShape {
                num_elements: spec_chunk_size(db_len as nat, raidpir_size as nat) as u32,
                element_size: element_size as u32,
                poly_degree: sealpir_poly_degree,
                log: sealpir_log,
                d: sealpir_d,
            }),
    {
        let raidpir_chunksize: usize = chunk_size(db_len, raidpir_size);
        HybridPirClient {
            db_len,
            element_size,
            raidpir_servers,
            raidpir_redundancy,
            raidpir_size,
            raidpir_chunksize,
            sealpir_poly_degree,
            sealpir_log,
            sealpir_d,
            sealpir_key,
        }
    }

    /// Number of records of the database.
    pub fn db_len(&self) -> (n: usize)
        ensures
            n == self.spec_db_len(),
    {
        self.db_len
    }

    /// Number of servers.
    pub fn raidpir_servers(&self) -> (n: usize)
        ensures
            n == self.spec_servers(),
    {
        self.raidpir_servers
    }

    /// Number of servers that must collude to learn the row asked for.
    pub fn raidpir_redundancy(&self) -> (n: usize)
        ensures
            n == self.spec_redundancy(),
    {
        self.raidpir_redundancy
    }

    /// Number of rows of the folded database.
    pub fn raidpir_size(&self) -> (n: usize)
        ensures
            n == self.spec_rows(),
    {
        self.raidpir_size
    }

    /// Number of records per row.
    pub fn raidpir_chunksize(&self) -> (n: usize)
        ensures
            n == self.spec_chunk(),
    {
        proof {
            use_type_invariant(self);
        }
        self.raidpir_chunksize
    }

    /// The evaluation key of the single-server scheme.
    pub fn sealpir_key(&self) -> (key: &Vec<u8>)
        ensures
            key@ == self.spec_key(),
    {
        &self.sealpir_key
    }

    /// The arguments for the single-server scheme: it selects among the
    /// records of one row.
    pub fn sealpir_shape(&self) -> (shape: SealPirShape)
        ensures
            shape == self.spec_sealpir_shape(),
            shape.num_elements == self.spec_chunk(),
            shape.element_size == self.spec_element_size(),
    {
        proof {
            use_type_invariant(self);
        }
        SealPirShape {
            num_elements: self.raidpir_chunksize as u32,
            element_size: self.element_size as u32,
            poly_degree: self.sealpir_poly_degree,
            log: self.sealpir_log,
            d: self.sealpir_d,
        }
    }

    /// Where record `index` lies in the folded database: its row and its
    /// column.
    pub fn locate(&self, index: usize) -> (place: (usize, u32))
        requires
            index < self.spec_db_len(),
        ensures
            self.spec_chunk() > 0,
            place.0 == index as int / (self.spec_chunk() as int),
            place.1 == index as int % (self.spec_chunk() as int),
            place.0 < self.spec_rows(),
            place.1 < self.spec_chunk(),
            index == place.0 * self.spec_chunk() + place.1,
    {
        proof {
            use_type_invariant(self);
            lemma_index_split(self.db_len as nat, self.raidpir_size as nat, index as int);
        }
        let raidpir_index: usize = index / self.raidpir_chunksize;
        let sealpir_index: usize = index % self.raidpir_chunksize;
        (raidpir_index, sealpir_index as u32)
    }

    /// What a query for record `index` asks of the two schemes, given one
    /// seed per server: the row to ask the multi-server scheme for and the
    /// column to ask the single-server scheme for.
    pub fn query(&self, index: usize, seeds: &Vec<u128>) -> (place: (usize, u32))
        requires
            index < self.spec_db_len(),
            seeds.len() == self.spec_servers(),
        ensures
            self.spec_chunk() > 0,
            place.0 == index as int / (self.spec_chunk() as int),
            place.1 == index as int % (self.spec_chunk() as int),
            place.0 < self.spec_rows(),
            place.1 < self.spec_chunk(),
            index == place.0 * self.spec_chunk() + place.1,
    {
        self.locate(index)
    }

    /// The row of record `index` in the folded database.
    pub open spec fn spec_row(&self, index: usize) -> usize {
        (index as int / (self.spec_chunk() as int)) as usize
    }

    /// The column of record `index` in its row.
    pub open spec fn spec_column(&self, index: usize) -> u32 {
        (index as int % (self.spec_chunk() as int)) as u32
    }

    /// The next state and what the driver is asked to do, given what it
    /// reports in `state`.
    ///
    /// A query runs through its phases in order: connect, greet every server
    /// and take its seed, make the queries, send every server its query and
    /// take its response, combine. A failure of the transport ends it at
    /// once, and so does a message of another kind than the one that is due.
    pub open spec fn spec_send_query(&self, state: ClientState, event: ClientEventView) -> (
        ClientState,
        ClientActionView,
    ) {
        let index: usize = state.index;
        match state.phase {
            ClientPhase::Done => spec_client_abort(state, QueryError::OutOfTurn),
            ClientPhase::Connecting => match event {
                ClientEventView::Failed => spec_client_abort(state, QueryError::Transport),
                ClientEventView::Connected => (
                    ClientState { phase: ClientPhase::AwaitSeeds, index },
                    ClientActionView::Exchange(spec_hello_round(self.spec_servers())),
                ),
                _ => spec_client_abort(state, QueryError::OutOfTurn),
            },
            ClientPhase::AwaitSeeds => match event {
                ClientEventView::Failed => spec_client_abort(state, QueryError::Transport),
                ClientEventView::Malformed => spec_client_abort(state, QueryError::MalformedFrame),
                ClientEventView::Replies(replies) => if replies.len() != self.spec_servers() {
                    spec_client_abort(state, QueryError::OutOfTurn)
                } else if !spec_all_seeds(replies) {
                    spec_client_abort(state, QueryError::MalformedFrame)
                } else {
                    (
                        ClientState { phase: ClientPhase::AwaitQueries, index },
                        ClientActionView::Query {
                            raidpir_index: self.spec_row(index),
                            sealpir_index: self.spec_column(index),
                            seeds: spec_seeds(replies),
                        },
                    )
                },
                _ => spec_client_abort(state, QueryError::OutOfTurn),
            },
            ClientPhase::AwaitQueries => match event {
                ClientEventView::PrimitiveFailed => spec_client_abort(
                    state,
                    QueryError::Primitive,
                ),
                ClientEventView::Queries(raidpir, sealpir) => if raidpir.len()
                    != self.spec_servers() {
                    spec_client_abort(state, QueryError::Primitive)
                } else {
                    (
                        ClientState { phase: ClientPhase::AwaitResponses, index },
                        ClientActionView::Exchange(
                            spec_query_round(raidpir, self.spec_key(), sealpir),
                        ),
                    )
                },
                _ => spec_client_abort(state, QueryError::OutOfTurn),
            },
            ClientPhase::AwaitResponses => match event {
                ClientEventView::Failed => spec_client_abort(state, QueryError::Transport),
                ClientEventView::Malformed => spec_client_abort(state, QueryError::MalformedFrame),
                ClientEventView::Replies(replies) => if replies.len() != self.spec_servers() {
                    spec_client_abort(state, QueryError::OutOfTurn)
                } else if !spec_all_responses(replies) {
                    spec_client_abort(state, QueryError::MalformedFrame)
                } else {
                    (
                        ClientState { phase: ClientPhase::AwaitRecord, index },
                        ClientActionView::Combine {
                            sealpir_index: self.spec_column(index),
                            replies: spec_responses(replies),
                        },
                    )
                },
                _ => spec_client_abort(state, QueryError::OutOfTurn),
            },
            ClientPhase::AwaitRecord => match event {
                ClientEventView::PrimitiveFailed => spec_client_abort(
                    state,
                    QueryError::Primitive,
                ),
                ClientEventView::Record(record) => (
                    ClientState { phase: ClientPhase::Done, index },
                    ClientActionView::Finish(Ok(record)),
                ),
                _ => spec_client_abort(state, QueryError::OutOfTurn),
            },
        }
    }

    /// Every step takes a query to a later phase, so a query asks for each
    /// thing at most once and ends after five steps at the latest.
    pub proof fn lemma_send_query_advances(&self, state: ClientState, event: ClientEventView)
        ensures
            self.spec_send_query(state, event).0.index == state.index,
            self.spec_send_query(state, event).0.phase == ClientPhase::Done || spec_client_rank(
                self.spec_send_query(state, event).0.phase,
            ) == spec_client_rank(state.phase) + 1,
            self.spec_send_query(state, event).0.phase == ClientPhase::Done
                <==> self.spec_send_query(state, event).1 is Finish,
    {
    }

    /// A failure of the transport ends a running query without a record.
    pub proof fn lemma_send_query_fails_whole(&self, state: ClientState)
        requires
            state.phase == ClientPhase::Connecting || state.phase == ClientPhase::AwaitSeeds
                || state.phase == ClientPhase::AwaitResponses,
        ensures
            self.spec_send_query(state, ClientEventView::Failed) == spec_client_abort(
                state,
                QueryError::Transport,
            ),
    {
    }

    /// Seeds keep the order of the servers: the seed handed to the
    /// multi-server scheme at position `i` is the one that server `i` sent,
    /// and the row and the column asked for are those of the record.
    pub proof fn lemma_seeds_keep_order(&self, index: usize, replies: Seq<HybridPirFrame>)
        requires
            replies.len() == self.spec_servers(),
            spec_all_seeds(replies),
        ensures
            self.spec_send_query(
                ClientState { phase: ClientPhase::AwaitSeeds, index },
                ClientEventView::Replies(replies),
            ).1 is Query,
            self.spec_send_query(
                ClientState { phase: ClientPhase::AwaitSeeds, index },
                ClientEventView::Replies(replies),
            ).1->seeds.len() == replies.len(),
            forall|i: int|
                0 <= i < replies.len() ==> #[trigger] self.spec_send_query(
                    ClientState { phase: ClientPhase::AwaitSeeds, index },
                    ClientEventView::Replies(replies),
                ).1->seeds[i] == replies[i]->Seed_0,
            self.spec_send_query(
                ClientState { phase: ClientPhase::AwaitSeeds, index },
                ClientEventView::Replies(replies),
            ).1->raidpir_index == self.spec_row(index),
            self.spec_send_query(
                ClientState { phase: ClientPhase::AwaitSeeds, index },
                ClientEventView::Replies(replies),
            ).1->Query_sealpir_index == self.spec_column(index),
    {
    }

    /// Queries keep the order of the servers: server `i` is sent the bytes
    /// of query `i` of the multi-server scheme, and every server the same
    /// key and the same query of the single-server scheme.
    pub proof fn lemma_queries_keep_order(
        &self,
        index: usize,
        raidpir: Seq<Seq<bool>>,
        sealpir: Seq<u8>,
    )
        requires
            raidpir.len() == self.spec_servers(),
        ensures
            self.spec_send_query(
                ClientState { phase: ClientPhase::AwaitQueries, index },
                ClientEventView::Queries(raidpir, sealpir),
            ).1 is Exchange,
            self.spec_send_query(
                ClientState { phase: ClientPhase::AwaitQueries, index },
                ClientEventView::Queries(raidpir, sealpir),
            ).1->Exchange_0.len() == raidpir.len(),
            forall|i: int|
                0 <= i < raidpir.len() ==> #[trigger] self.spec_send_query(
                    ClientState { phase: ClientPhase::AwaitQueries, index },
                    ClientEventView::Queries(raidpir, sealpir),
                ).1->Exchange_0[i] == HybridPirFrame::Query(
                    spec_pack(raidpir[i]),
                    self.spec_key(),
                    sealpir,
                ),
    {
    }

    /// The state in which a query for record `index` starts, and the first
    /// thing to do: open a stream to each of the `targets` servers.
    pub fn begin_query(&self, index: usize, targets: usize) -> (start: (ClientState, ClientAction))
        requires
            index < self.spec_db_len(),
            targets == self.spec_servers(),
        ensures
            start.0 == (ClientState { phase: ClientPhase::Connecting, index }),
            start.1@ == ClientActionView::Connect,
    {
        (ClientState { phase: ClientPhase::Connecting, index }, ClientAction::Connect)
    }

    /// Takes a query one step further: given the state and what the driver
    /// reports, returns the next state and what the driver is to do next.
    pub fn send_query(&self, state: ClientState, event: ClientEvent) -> (next: (
        ClientState,
        ClientAction,
    ))
        requires
            state.index < self.spec_db_len(),
        ensures
            (next.0, next.1@) == self.spec_send_query(state, event@),
    {
        let index: usize = state.index;
        let done: ClientState = ClientState { phase: ClientPhase::Done, index };
        proof {
            use_type_invariant(self);
        }
        match state.phase {
            ClientPhase::Done => (done, ClientAction::Finish(Err(QueryError::OutOfTurn))),
            ClientPhase::Connecting => match event {
                ClientEvent::Failed => (done, ClientAction::Finish(Err(QueryError::Transport))),
                ClientEvent::Connected => (
                    ClientState { phase: ClientPhase::AwaitSeeds, index },
                    ClientAction::Exchange(hello_round(self.raidpir_servers)),
                ),
                _ => (done, ClientAction::Finish(Err(QueryError::OutOfTurn))),
            },
            ClientPhase::AwaitSeeds => match event {
                ClientEvent::Failed => (done, ClientAction::Finish(Err(QueryError::Transport))),
                ClientEvent::Malformed => (
                    done,
                    ClientAction::Finish(Err(QueryError::MalformedFrame)),
                ),
                ClientEvent::Replies(replies) => {
                    if replies.len() != self.raidpir_servers {
                        return (done, ClientAction::Finish(Err(QueryError::OutOfTurn)));
                    }
                    match collect_seeds(&replies) {
                        None => (done, ClientAction::Finish(Err(QueryError::MalformedFrame))),
                        Some(seeds) => {
                            let place: (usize, u32) = self.query(index, &seeds);
                            (
                                ClientState { phase: ClientPhase::AwaitQueries, index },
                                ClientAction::Query {
                                    raidpir_index: place.0,
                                    sealpir_index: place.1,
                                    seeds,
                                },
                            )
                        },
                    }
                },
                _ => (done, ClientAction::Finish(Err(QueryError::OutOfTurn))),
            },
            ClientPhase::AwaitQueries => match event {
                ClientEvent::PrimitiveFailed => (
                    done,
                    ClientAction::Finish(Err(QueryError::Primitive)),
                ),
                ClientEvent::Queries(raidpir, sealpir) => {
                    if raidpir.len() != self.raidpir_servers {
                        return (done, ClientAction::Finish(Err(QueryError::Primitive)));
                    }
                    (
                        ClientState { phase: ClientPhase::AwaitResponses, index },
                        ClientAction::Exchange(query_round(&raidpir, &self.sealpir_key, &sealpir)),
                    )
                },
                _ => (done, ClientAction::Finish(Err(QueryError::OutOfTurn))),
            },
            ClientPhase::AwaitResponses => match event {
                ClientEvent::Failed => (done, ClientAction::Finish(Err(QueryError::Transport))),
                ClientEvent::Malformed => (
                    done,
                    ClientAction::Finish(Err(QueryError::MalformedFrame)),
                ),
                ClientEvent::Replies(replies) => {
                    if replies.len() != self.raidpir_servers {
                        return (done, ClientAction::Finish(Err(QueryError::OutOfTurn)));
                    }
                    match collect_responses(&replies) {
                        None => (done, ClientAction::Finish(Err(QueryError::MalformedFrame))),
                        Some(payloads) => {
                            let place: (usize, u32) = self.locate(index);
                            (
                                ClientState { phase: ClientPhase::AwaitRecord, index },
                                ClientAction::Combine { sealpir_index: place.1, replies: payloads },
                            )
                        },
                    }
                },
                _ => (done, ClientAction::Finish(Err(QueryError::OutOfTurn))),
            },
            ClientPhase::AwaitRecord => match event {
                ClientEvent::PrimitiveFailed => (
                    done,
                    ClientAction::Finish(Err(QueryError::Primitive)),
                ),
                ClientEvent::Record(record) => (done, ClientAction::Finish(Ok(record))),
                _ => (done, ClientAction::Finish(Err(QueryError::OutOfTurn))),
            },
        }
    }
}

} // verus!
