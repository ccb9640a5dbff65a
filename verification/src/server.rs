//! The server of the hybrid scheme: the folded database that the
//! multi-server scheme works on, the buffer that the single-server scheme is
//! set up with for every query, and the order in which a connection is
//! served.

use vstd::prelude::*;
use crate::layout::SealPirShape;
use crate::layout::spec_valid_shape;
use crate::layout::spec_chunk_size;
use crate::layout::spec_records;
use crate::layout::spec_uniform;
use crate::layout::spec_folded_row;
use crate::layout::spec_row_buffer;
use crate::layout::chunk_size;
use crate::layout::fold_database;
use crate::layout::row_buffer;
use crate::layout::uniform;
use crate::layout::valid_shape;
use crate::types::HybridPirMessage;
use crate::types::HybridPirFrame;
use crate::bits::RaidPirQuery;
use crate::bits::spec_query_bits;
use crate::bits::spec_unpack;
use crate::bits::spec_overlong;
use crate::bits::spec_pack;
use crate::bits::lemma_unpack_pack;

verus! {

/// Why a connection was closed before its query was answered.
#[derive(Clone, Copy, Debug, PartialEq, Eq, Structural)]
pub enum ConnectionError {
    /// Receiving, sending or shutting down failed.
    Transport,
    /// The client sent bytes that are no frame, or a message of another kind
    /// than the one that was due.
    MalformedFrame,
    /// One of the two retrieval schemes failed.
    Primitive,
    /// The driver reported something that was not asked for.
    OutOfTurn,
}

/// How far a connection has come.
#[derive(Clone, Copy, Debug, PartialEq, Eq, Structural)]
pub enum ServerPhase {
    /// The client owes its greeting.
    AwaitHello,
    /// The multi-server scheme owes a fresh seed.
    AwaitSeed,
    /// The seed is being sent.
    SendingSeed,
    /// The client owes its query.
    AwaitQuery,
    /// The two schemes are computing the response.
    AwaitReply,
    /// The response is being sent.
    SendingResponse,
    /// The stream is being shut down.
    ShuttingDown,
    /// The multi-server scheme is refilling its queue of seeds.
    Refilling,
    /// The connection has ended.
    Closed,
}

/// The state of one connection: how far it has come and, once one was
/// drawn, the seed that its query is answered with.
#[derive(Clone, Copy, Debug, PartialEq, Eq, Structural)]
pub struct ServerState {
    pub phase: ServerPhase,
    pub seed: Option<u128>,
}

/// What the driver reports back after it has done what was asked.
#[derive(Debug, Clone, PartialEq, Eq)]
pub enum ServerEvent {
    /// A message was received.
    Message(HybridPirMessage),
    /// The bytes received are no frame.
    Malformed,
    /// The seed that the multi-server scheme handed out.
    Seed(u128),
    /// The reply of the single-server scheme.
    Reply(Vec<u8>),
    /// What was asked for is done: the message is sent, the stream shut
    /// down, the queue refilled.
    Done,
    /// One of the two schemes failed.
    PrimitiveFailed,
    /// Receiving, sending or shutting down failed.
    Failed,
}

/// What a [`ServerEvent`] holds.
pub enum ServerEventView {
    Message(HybridPirFrame),
    Malformed,
    Seed(u128),
    Reply(Seq<u8>),
    Done,
    PrimitiveFailed,
    Failed,
}

impl View for ServerEvent {
    type V = ServerEventView;

    open spec fn view(&self) -> ServerEventView {
        match *self {
            ServerEvent::Message(message) => ServerEventView::Message(message@),
            ServerEvent::Malformed => ServerEventView::Malformed,
            ServerEvent::Seed(seed) => ServerEventView::Seed(seed),
            ServerEvent::Reply(reply) => ServerEventView::Reply(reply@),
            ServerEvent::Done => ServerEventView::Done,
            ServerEvent::PrimitiveFailed => ServerEventView::PrimitiveFailed,
            ServerEvent::Failed => ServerEventView::Failed,
        }
    }
}

/// What the driver is asked to do next.
#[derive(Debug, PartialEq, Eq)]
pub enum ServerAction {
    /// Receive one message.
    Receive,
    /// Take a fresh seed from the multi-server scheme.
    DrawSeed,
    /// Send this message.
    Send(HybridPirMessage),
    /// Compute the response to this query: the contribution of the
    /// multi-server scheme under `seed`, and on it the reply of the
    /// single-server scheme under the client's key.
    Respond {
        seed: u128,
        raidpir_query: RaidPirQuery,
        sealpir_key: Vec<u8>,
        sealpir_query: Vec<u8>,
    },
    /// Shut the stream down in both directions.
    Shutdown,
    /// Let the multi-server scheme refill its queue of seeds.
    Preprocess,
    /// Close the connection with this result.
    Finish(Result<(), ConnectionError>),
}

/// What a [`ServerAction`] holds.
pub enum ServerActionView {
    Receive,
    DrawSeed,
    Send(HybridPirFrame),
    Respond { seed: u128, raidpir_query: Seq<bool>, sealpir_key: Seq<u8>, sealpir_query: Seq<u8> },
    Shutdown,
    Preprocess,
    Finish(Result<(), ConnectionError>),
}

impl View for ServerAction {
    type V = ServerActionView;

    open spec fn view(&self) -> ServerActionView {
        match *self {
            ServerAction::Receive => ServerActionView::Receive,
            ServerAction::DrawSeed => ServerActionView::DrawSeed,
            ServerAction::Send(message) => ServerActionView::Send(message@),
            ServerAction::Respond {
                seed,
                raidpir_query,
                sealpir_key,
                sealpir_query,
            } => ServerActionView::Respond {
                seed,
                raidpir_query: spec_query_bits(raidpir_query),
                sealpir_key: sealpir_key@,
                sealpir_query: sealpir_query@,
            },
            ServerAction::Shutdown => ServerActionView::Shutdown,
            ServerAction::Preprocess => ServerActionView::Preprocess,
            ServerAction::Finish(result) => ServerActionView::Finish(result),
        }
    }
}

/// How many steps a connection in this phase has behind it.
pub open spec fn spec_server_rank(phase: ServerPhase) -> nat {
    match phase {
        ServerPhase::AwaitHello => 0,
        ServerPhase::AwaitSeed => 1,
        ServerPhase::SendingSeed => 2,
        ServerPhase::AwaitQuery => 3,
        ServerPhase::AwaitReply => 4,
        ServerPhase::SendingResponse => 5,
        ServerPhase::ShuttingDown => 6,
        ServerPhase::Refilling => 7,
        ServerPhase::Closed => 8,
    }
}

/// The end of a connection.
pub open spec fn spec_server_close(state: ServerState, result: Result<(), ConnectionError>) -> (
    ServerState,
    ServerActionView,
) {
    (ServerState { phase: ServerPhase::Closed, seed: state.seed }, ServerActionView::Finish(result))
}

/// The next phase of a connection that goes on, with the seed kept.
pub open spec fn spec_server_go(state: ServerState, phase: ServerPhase, action: ServerActionView)
    -> (ServerState, ServerActionView) {
    (ServerState { phase, seed: state.seed }, action)
}

/// The next state of a connection and what the driver is asked to do, given
/// what it reports in `state`.
///
/// A connection runs through its phases in order: greeting, seed, query,
/// response, shutdown, refill. A failure of the transport closes it, and so
/// does a message of another kind than the one that is due; a connection
/// closed early takes no seed it has not taken yet and refills nothing. The
/// bytes of the query become the bits that the multi-server scheme works on.
pub open spec fn spec_handle_connection(state: ServerState, event: ServerEventView) -> (
    ServerState,
    ServerActionView,
) {
    match state.phase {
        ServerPhase::Closed => spec_server_close(state, Err(ConnectionError::OutOfTurn)),
        ServerPhase::AwaitHello => match event {
            ServerEventView::Failed => spec_server_close(state, Err(ConnectionError::Transport)),
            ServerEventView::Malformed => spec_server_close(
                state,
                Err(ConnectionError::MalformedFrame),
            ),
            ServerEventView::Message(HybridPirFrame::Hello) => spec_server_go(
                state,
                ServerPhase::AwaitSeed,
                ServerActionView::DrawSeed,
            ),
            ServerEventView::Message(_) => spec_server_close(
                state,
                Err(ConnectionError::MalformedFrame),
            ),
            _ => spec_server_close(state, Err(ConnectionError::OutOfTurn)),
        },
        ServerPhase::AwaitSeed => match event {
            ServerEventView::PrimitiveFailed => spec_server_close(
                state,
                Err(ConnectionError::Primitive),
            ),
            ServerEventView::Seed(seed) => (
                ServerState { phase: ServerPhase::SendingSeed, seed: Some(seed) },
                ServerActionView::Send(HybridPirFrame::Seed(seed)),
            ),
            _ => spec_server_close(state, Err(ConnectionError::OutOfTurn)),
        },
        ServerPhase::SendingSeed => match event {
            ServerEventView::Failed => spec_server_close(state, Err(ConnectionError::Transport)),
            ServerEventView::Done => spec_server_go(
                state,
                ServerPhase::AwaitQuery,
                ServerActionView::Receive,
            ),
            _ => spec_server_close(state, Err(ConnectionError::OutOfTurn)),
        },
        ServerPhase::AwaitQuery => match event {
            ServerEventView::Failed => spec_server_close(state, Err(ConnectionError::Transport)),
            ServerEventView::Malformed => spec_server_close(
                state,
                Err(ConnectionError::MalformedFrame),
            ),
            ServerEventView::Message(
                HybridPirFrame::Query(raidpir_query, sealpir_key, sealpir_query),
            ) => match state.seed {
                Some(seed) => if spec_overlong(raidpir_query.len()) {
                    spec_server_close(state, Err(ConnectionError::MalformedFrame))
                } else {
                    spec_server_go(
                        state,
                        ServerPhase::AwaitReply,
                        ServerActionView::Respond {
                            seed,
                            raidpir_query: spec_unpack(raidpir_query),
                            sealpir_key,
                            sealpir_query,
                        },
                    )
                },
                None => spec_server_close(state, Err(ConnectionError::OutOfTurn)),
            },
            ServerEventView::Message(_) => spec_server_close(
                state,
                Err(ConnectionError::MalformedFrame),
            ),
            _ => spec_server_close(state, Err(ConnectionError::OutOfTurn)),
        },
        ServerPhase::AwaitReply => match event {
            ServerEventView::PrimitiveFailed => spec_server_close(
                state,
                Err(ConnectionError::Primitive),
            ),
            ServerEventView::Reply(reply) => spec_server_go(
                state,
                ServerPhase::SendingResponse,
                ServerActionView::Send(HybridPirFrame::Response(reply)),
            ),
            _ => spec_server_close(state, Err(ConnectionError::OutOfTurn)),
        },
        ServerPhase::SendingResponse => match event {
            ServerEventView::Failed => spec_server_close(state, Err(ConnectionError::Transport)),
            ServerEventView::Done => spec_server_go(
                state,
                ServerPhase::ShuttingDown,
                ServerActionView::Shutdown,
            ),
            _ => spec_server_close(state, Err(ConnectionError::OutOfTurn)),
        },
        ServerPhase::ShuttingDown => match event {
            ServerEventView::Failed => spec_server_close(state, Err(ConnectionError::Transport)),
            ServerEventView::Done => spec_server_go(
                state,
                ServerPhase::Refilling,
                ServerActionView::Preprocess,
            ),
            _ => spec_server_close(state, Err(ConnectionError::OutOfTurn)),
        },
        ServerPhase::Refilling => match event {
            ServerEventView::Done => spec_server_close(state, Ok(())),
            _ => spec_server_close(state, Err(ConnectionError::OutOfTurn)),
        },
    }
}

/// The state in which every connection starts.
pub open spec fn spec_accepted() -> ServerState {
    ServerState { phase: ServerPhase::AwaitHello, seed: None }
}

/// The state after the driver has reported `events` one by one, starting
/// from `state`.
pub open spec fn spec_served(state: ServerState, events: Seq<ServerEventView>) -> ServerState
    decreases events.len(),
{
    if events.len() == 0 {
        state
    } else {
        spec_handle_connection(spec_served(state, events.drop_last()), events.last()).0
    }
}

/// What the driver is asked to do after it has reported `events` one by one,
/// starting from `state`; `events` is not empty.
pub open spec fn spec_asked(state: ServerState, events: Seq<ServerEventView>) -> ServerActionView {
    spec_handle_connection(spec_served(state, events.drop_last()), events.last()).1
}

/// Every step takes a connection to the next phase or closes it.
pub proof fn lemma_handle_connection_advances(state: ServerState, event: ServerEventView)
    ensures
        spec_handle_connection(state, event).0.phase == ServerPhase::Closed || spec_server_rank(
            spec_handle_connection(state, event).0.phase,
        ) == spec_server_rank(state.phase) + 1,
        spec_handle_connection(state, event).0.phase == ServerPhase::Closed
            <==> spec_handle_connection(state, event).1 is Finish,
{
}

/// A seed is taken in one situation only: the connection is new and the
/// client has sent its greeting. Whatever else arrives first closes the
/// connection and leaves the queue of seeds as it was.
pub proof fn lemma_seed_only_after_hello(state: ServerState, event: ServerEventView)
    ensures
        spec_handle_connection(state, event).1 is DrawSeed <==> (state.phase
            == ServerPhase::AwaitHello && event == ServerEventView::Message(
            HybridPirFrame::Hello,
        )),
        state.phase == ServerPhase::AwaitHello && event is Message && event
            != ServerEventView::Message(HybridPirFrame::Hello) ==> spec_handle_connection(
            state,
            event,
        ) == spec_server_close(state, Err(ConnectionError::MalformedFrame)),
{
}

/// The queue of seeds is refilled in one situation only: the response was
/// sent and the stream shut down.
pub proof fn lemma_refill_only_after_response(state: ServerState, event: ServerEventView)
    ensures
        spec_handle_connection(state, event).1 is Preprocess <==> (state.phase
            == ServerPhase::ShuttingDown && event is Done),
{
}

/// The query that the multi-server scheme is asked to answer is the one
/// that the client's scheme made: a query of whole bytes, packed for the
/// wire and received by a connection that awaits its query, is handed on bit
/// for bit, together with the key and the query of the single-server scheme
/// and under the seed of this connection.
pub proof fn lemma_query_reaches_scheme(
    state: ServerState,
    bits: Seq<bool>,
    sealpir_key: Seq<u8>,
    sealpir_query: Seq<u8>,
)
    requires
        state.phase == ServerPhase::AwaitQuery,
        state.seed is Some,
        bits.len() % 8 == 0,
        !spec_overlong(spec_pack(bits).len()),
    ensures
        spec_handle_connection(
            state,
            ServerEventView::Message(
                HybridPirFrame::Query(spec_pack(bits), sealpir_key, sealpir_query),
            ),
        ) == spec_server_go(
            state,
            ServerPhase::AwaitReply,
            ServerActionView::Respond {
                seed: state.seed->Some_0,
                raidpir_query: bits,
                sealpir_key,
                sealpir_query,
            },
        ),
{
    lemma_unpack_pack(bits);
}

/// After `n` reports a connection that is not closed is in the phase with
/// rank `n`.
pub proof fn lemma_served_rank(events: Seq<ServerEventView>)
    ensures
        spec_served(spec_accepted(), events).phase == ServerPhase::Closed || spec_server_rank(
            spec_served(spec_accepted(), events).phase,
        ) == events.len(),
    decreases events.len(),
{
    if events.len() > 0 {
        lemma_served_rank(events.drop_last());
        lemma_handle_connection_advances(
            spec_served(spec_accepted(), events.drop_last()),
            events.last(),
        );
    }
}

/// A connection takes at most one seed, and takes it as its first step:
/// whatever the driver reports, only the answer to the first report can be
/// the demand for a seed.
pub proof fn lemma_one_seed_per_connection(events: Seq<ServerEventView>)
    requires
        events.len() > 0,
        spec_asked(spec_accepted(), events) is DrawSeed,
    ensures
        events.len() == 1,
        events[0] == ServerEventView::Message(HybridPirFrame::Hello),
{
    let before: ServerState = spec_served(spec_accepted(), events.drop_last());
    lemma_seed_only_after_hello(before, events.last());
    lemma_served_rank(events.drop_last());
}

/// The seed under which a query is answered is the seed that was handed out
/// on this connection: a connection that has come to await its query holds
/// the seed reported in its second step.
pub proof fn lemma_query_answered_with_drawn_seed(events: Seq<ServerEventView>)
    requires
        spec_served(spec_accepted(), events).phase == ServerPhase::AwaitQuery,
    ensures
        events.len() == 3,
        events[1] is Seed,
        spec_served(spec_accepted(), events).seed == Some(events[1]->Seed_0),
{
    lemma_served_rank(events);
    let two: Seq<ServerEventView> = events.drop_last();
    let one: Seq<ServerEventView> = two.drop_last();
    let none: Seq<ServerEventView> = one.drop_last();
    assert(none.len() == 0);
    assert(spec_served(spec_accepted(), none) == spec_accepted());
    let s1: ServerState = spec_served(spec_accepted(), one);
    let s2: ServerState = spec_served(spec_accepted(), two);
    assert(s1 == spec_handle_connection(spec_accepted(), one.last()).0);
    assert(s2 == spec_handle_connection(s1, two.last()).0);
    assert(two.last() == events[1]);
    lemma_served_rank(two);
    lemma_served_rank(one);
}

/// The server's share of the hybrid scheme: the shape of the database, the
/// folded rows that the multi-server scheme serves, and the parameters of
/// both schemes.
#[derive(Debug)]
pub struct HybridPirServer {
    db_len: usize,
    element_size: usize,
    raidpir_id: usize,
    raidpir_servers: usize,
    raidpir_redundancy: usize,
    raidpir_size: usize,
    raidpir_russians: bool,
    sealpir_poly_degree: u32,
    sealpir_log: u32,
    sealpir_d: u32,
    rows: Vec<Vec<u8>>,
}

impl HybridPirServer {
    #[verifier::type_invariant]
    spec fn well_formed(&self) -> bool {
        &&& spec_valid_shape(
            self.db_len as nat,
            self.element_size as nat,
            self.raidpir_servers as nat,
            self.raidpir_redundancy as nat,
            self.raidpir_size as nat,
        )
        &&& self.raidpir_id < self.raidpir_servers
        &&& self.rows.len() == self.raidpir_size
    }

    /// Number of records of the database.
    pub closed spec fn spec_db_len(&self) -> nat {
        self.db_len as nat
    }

    /// Width of a record in bytes.
    pub closed spec fn spec_element_size(&self) -> nat {
        self.element_size as nat
    }

    /// Position of this server among the servers.
    pub closed spec fn spec_id(&self) -> nat {
        self.raidpir_id as nat
    }

    /// Number of servers.
    pub closed spec fn spec_servers(&self) -> nat {
        self.raidpir_servers as nat
    }

    /// Number of servers that must collude to learn the row asked for.
    pub closed spec fn spec_redundancy(&self) -> nat {
        self.raidpir_redundancy as nat
    }

    /// Number of rows of the folded database.
    pub closed spec fn spec_rows(&self) -> nat {
        self.raidpir_size as nat
    }

    /// Whether the multi-server scheme precomputes sums of rows.
    pub closed spec fn spec_russians(&self) -> bool {
        self.raidpir_russians
    }

    /// Number of records per row.
    pub open spec fn spec_chunk(&self) -> nat {
        spec_chunk_size(self.spec_db_len(), self.spec_rows())
    }

    /// The rows of the folded database.
    pub closed spec fn spec_folded(&self) -> Seq<Seq<u8>> {
        spec_records(self.rows@)
    }

    /// The arguments for the single-server scheme.
    pub closed spec fn spec_sealpir_shape(&self) -> SealPirShape {
        SealPirShape {
            num_elements: spec_chunk_size(self.db_len as nat, self.raidpir_size as nat) as u32,
            element_size: self.element_size as u32,
            poly_degree: self.sealpir_poly_degree,
            log: self.sealpir_log,
            d: self.sealpir_d,
        }
    }

    /// The database and the parameters describe a server: the database is
    /// not empty, its records all have the width of the first, the shape is
    /// one that can be folded, and the server is one of the servers.
    pub open spec fn spec_valid_config(
        db: Seq<Vec<u8>>,
        raidpir_id: nat,
        raidpir_servers: nat,
        raidpir_redundancy: nat,
        raidpir_size: nat,
    ) -> bool {
        &&& db.len() > 0
        &&& spec_uniform(spec_records(db), db[0].len() as nat)
        &&& spec_valid_shape(
            db.len(),
            db[0].len() as nat,
            raidpir_servers,
            raidpir_redundancy,
            raidpir_size,
        )
        &&& raidpir_id < raidpir_servers
    }

    /// Decides whether the database and the parameters describe a server.
    pub fn valid_config(
        db: &Vec<Vec<u8>>,
        raidpir_id: usize,
        raidpir_servers: usize,
        raidpir_redundancy: usize,
        raidpir_size: usize,
    ) -> (ok: bool)
        ensures
            ok == Self::spec_valid_config(
                db@,
                raidpir_id as nat,
                raidpir_servers as nat,
                raidpir_redundancy as nat,
                raidpir_size as nat,
            ),
    {
        if db.len() == 0 {
            return false;
        }
        let element_size: usize = db[0].len();
        uniform(db, element_size) && valid_shape(
            db.len(),
            element_size,
            raidpir_servers,
            raidpir_redundancy,
            raidpir_size,
        ) && raidpir_id < raidpir_servers
    }

    /// A server for the database `db`, whose records all have the width of
    /// the first. The database is folded into `raidpir_size` rows, which the
    /// multi-server scheme is to serve as server `raidpir_id` of
    /// `raidpir_servers`.
    pub fn new(
        db: &Vec<Vec<u8>>,
        raidpir_id: usize,
        raidpir_servers: usize,
        raidpir_redundancy: usize,
        raidpir_size: usize,
        raidpir_russians: bool,
        sealpir_poly_degree: u32,
        sealpir_log: u32,
        sealpir_d: u32,
    ) -> (server: Self)
        requires
            Self::spec_valid_config(
                db@,
                raidpir_id as nat,
                raidpir_servers as nat,
                raidpir_redundancy as nat,
                raidpir_size as nat,
            ),
        ensures
            server.spec_db_len() == db.len(),
            server.spec_element_size() == db[0].len(),
            server.spec_id() == raidpir_id,
            server.spec_servers() == raidpir_servers,
            server.spec_redundancy() == raidpir_redundancy,
            server.spec_rows() == raidpir_size,
            server.spec_russians() == raidpir_russians,
            server.spec_sealpir_shape() == (SealPirShape {
                num_elements: spec_chunk_size(db.len() as nat, raidpir_size as nat) as u32,
                element_size: db[0].len() as u32,
                poly_degree: sealpir_poly_degree,
                log: sealpir_log,
                d: sealpir_d,
            }),
            server.spec_folded().len() == raidpir_size,
            forall|r: int|
                0 <= r < raidpir_size ==> #[trigger] server.spec_folded()[r] == spec_folded_row(
                    spec_records(db@),
                    db[0].len() as nat,
                    spec_chunk_size(db.len() as nat, raidpir_size as nat),
                    r,
                ),
    {
        let element_size: usize = db[0].len();
        let rows: Vec<Vec<u8>> = fold_database(db, element_size, raidpir_size);
        HybridPirServer {
            db_len: db.len(),
            element_size,
            raidpir_id,
            raidpir_servers,
            raidpir_redundancy,
            raidpir_size,
            raidpir_russians,
            sealpir_poly_degree,
            sealpir_log,
            sealpir_d,
            rows,
        }
    }

    /// Number of records of the database.
    pub fn db_len(&self) -> (n: usize)
        ensures
            n == self.spec_db_len(),
    {
        self.db_len
    }

    /// Width of a record in bytes.
    pub fn element_size(&self) -> (n: usize)
        ensures
            n == self.spec_element_size(),
    {
        self.element_size
    }

    /// Position of this server among the servers.
    pub fn raidpir_id(&self) -> (n: usize)
        ensures
            n == self.spec_id(),
    {
        self.raidpir_id
    }

    /// Number of servers.
    pub fn raidpir_servers(&self) -> (n: usize)
        ensures
            n == self.spec_servers(),
    {
        self.raidpir_servers
    }

    /// Number of servers that must collude to learn the row asked for.
    pub fn raidpir_redundancy(&self) -> (n: usize)
        ensures
            n == self.spec_redundancy(),
    {
        self.raidpir_redundancy
    }

    /// Number of rows of the folded database.
    pub fn raidpir_size(&self) -> (n: usize)
        ensures
            n == self.spec_rows(),
    {
        self.raidpir_size
    }

    /// Whether the multi-server scheme precomputes sums of rows.
    pub fn raidpir_russians(&self) -> (b: bool)
        ensures
            b == self.spec_russians(),
    {
        self.raidpir_russians
    }

    /// The rows of the folded database, for the multi-server scheme to serve.
    pub fn rows(&self) -> (rows: &Vec<Vec<u8>>)
        ensures
            spec_records(rows@) == self.spec_folded(),
    {
        &self.rows
    }

    /// The arguments for the single-server scheme: it selects among the
    /// records of one row.
    pub fn sealpir_shape(&self) -> (shape: SealPirShape)
        ensures
            shape == self.spec_sealpir_shape(),
            shape.num_elements == self.spec_chunk(),
            shape.element_size == self.spec_element_size(),
    {
        proof {
            use_type_invariant(self);
        }
        SealPirShape {
            num_elements: chunk_size(self.db_len, self.raidpir_size) as u32,
            element_size: self.element_size as u32,
            poly_degree: self.sealpir_poly_degree,
            log: self.sealpir_log,
            d: self.sealpir_d,
        }
    }

    /// The buffer that the single-server scheme is set up with for one
    /// query: `raw`, the contribution of the multi-server scheme, brought to
    /// the width of one row, so that every record of it is whole.
    pub fn sealpir_database(&self, raw: Vec<u8>) -> (buffer: Vec<u8>)
        ensures
            buffer@ == spec_row_buffer(raw@, self.spec_chunk() * self.spec_element_size()),
            buffer.len() == self.spec_chunk() * self.spec_element_size(),
    {
        proof {
            use_type_invariant(self);
        }
        let chunk: usize = chunk_size(self.db_len, self.raidpir_size);
        row_buffer(raw, chunk * self.element_size)
    }

    /// The state in which a connection starts, and the first thing to do:
    /// receive the client's greeting.
    pub fn accept_connection() -> (start: (ServerState, ServerAction))
        ensures
            start.0 == spec_accepted(),
            start.1@ == ServerActionView::Receive,
    {
        (ServerState { phase: ServerPhase::AwaitHello, seed: None }, ServerAction::Receive)
    }

    /// Takes a connection one step further: given the state and what the
    /// driver reports, returns the next state and what the driver is to do
    /// next.
    pub fn handle_connection(state: ServerState, event: ServerEvent) -> (next: (
        ServerState,
        ServerAction,
    ))
        ensures
            (next.0, next.1@) == spec_handle_connection(state, event@),
    {
        let seed: Option<u128> = state.seed;
        let closed: ServerState = ServerState { phase: ServerPhase::Closed, seed };
        let out_of_turn: (ServerState, ServerAction) = (
            closed,
            ServerAction::Finish(Err(ConnectionError::OutOfTurn)),
        );
        match state.phase {
            ServerPhase::Closed => out_of_turn,
            ServerPhase::AwaitHello => match event {
                ServerEvent::Failed => (
                    closed,
                    ServerAction::Finish(Err(ConnectionError::Transport)),
                ),
                ServerEvent::Malformed => (
                    closed,
                    ServerAction::Finish(Err(ConnectionError::MalformedFrame)),
                ),
                ServerEvent::Message(HybridPirMessage::Hello) => (
                    ServerState { phase: ServerPhase::AwaitSeed, seed },
                    ServerAction::DrawSeed,
                ),
                ServerEvent::Message(_) => (
                    closed,
                    ServerAction::Finish(Err(ConnectionError::MalformedFrame)),
                ),
                _ => out_of_turn,
            },
            ServerPhase::AwaitSeed => match event {
                ServerEvent::PrimitiveFailed => (
                    closed,
                    ServerAction::Finish(Err(ConnectionError::Primitive)),
                ),
                ServerEvent::Seed(drawn) => (
                    ServerState { phase: ServerPhase::SendingSeed, seed: Some(drawn) },
                    ServerAction::Send(HybridPirMessage::Seed(drawn)),
                ),
                _ => out_of_turn,
            },
            ServerPhase::SendingSeed => match event {
                ServerEvent::Failed => (
                    closed,
                    ServerAction::Finish(Err(ConnectionError::Transport)),
                ),
                ServerEvent::Done => (
                    ServerState { phase: ServerPhase::AwaitQuery, seed },
                    ServerAction::Receive,
                ),
                _ => out_of_turn,
            },
            ServerPhase::AwaitQuery => match event {
                ServerEvent::Failed => (
                    closed,
                    ServerAction::Finish(Err(ConnectionError::Transport)),
                ),
                ServerEvent::Malformed => (
                    closed,
                    ServerAction::Finish(Err(ConnectionError::MalformedFrame)),
                ),
                ServerEvent::Message(
                    HybridPirMessage::Query(raidpir_query, sealpir_key, sealpir_query),
                ) => match seed {
                    Some(drawn) => match RaidPirQuery::from_wire(raidpir_query) {
                        Some(bits) => (
                            ServerState { phase: ServerPhase::AwaitReply, seed },
                            ServerAction::Respond {
                                seed: drawn,
                                raidpir_query: bits,
                                sealpir_key,
                                sealpir_query,
                            },
                        ),
                        None => (
                            closed,
                            ServerAction::Finish(Err(ConnectionError::MalformedFrame)),
                        ),
                    },
                    None => out_of_turn,
                },
                ServerEvent::Message(_) => (
                    closed,
                    ServerAction::Finish(Err(ConnectionError::MalformedFrame)),
                ),
                _ => out_of_turn,
            },
            ServerPhase::AwaitReply => match event {
                ServerEvent::PrimitiveFailed => (
                    closed,
                    ServerAction::Finish(Err(ConnectionError::Primitive)),
                ),
                ServerEvent::Reply(reply) => (
                    ServerState { phase: ServerPhase::SendingResponse, seed },
                    ServerAction::Send(HybridPirMessage::Response(reply)),
                ),
                _ => out_of_turn,
            },
            ServerPhase::SendingResponse => match event {
                ServerEvent::Failed => (
                    closed,
                    ServerAction::Finish(Err(ConnectionError::Transport)),
                ),
                ServerEvent::Done => (
                    ServerState { phase: ServerPhase::ShuttingDown, seed },
                    ServerAction::Shutdown,
                ),
                _ => out_of_turn,
            },
            ServerPhase::ShuttingDown => match event {
                ServerEvent::Failed => (
                    closed,
                    ServerAction::Finish(Err(ConnectionError::Transport)),
                ),
                ServerEvent::Done => (
                    ServerState { phase: ServerPhase::Refilling, seed },
                    ServerAction::Preprocess,
                ),
                _ => out_of_turn,
            },
            ServerPhase::Refilling => match event {
                ServerEvent::Done => (closed, ServerAction::Finish(Ok(()))),
                _ => out_of_turn,
            },
        }
    }
}

} // verus!
