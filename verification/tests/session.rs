use bitvec::order::Lsb0;
use bitvec::vec::BitVec;

use hybridpir::bits::RaidPirQuery;
use hybridpir::client::{
    collect_responses, collect_seeds, hello_round, query_round, ClientAction, ClientEvent,
    ClientPhase, ClientState, HybridPirClient, QueryError,
};
use hybridpir::server::{
    ConnectionError, HybridPirServer, ServerAction, ServerEvent, ServerPhase, ServerState,
};
use hybridpir::types::HybridPirMessage;

fn query(bytes: Vec<u8>) -> RaidPirQuery {
    RaidPirQuery { bits: BitVec::<Lsb0, u8>::from_vec(bytes) }
}

fn at(phase: ServerPhase, seed: Option<u128>) -> ServerState {
    ServerState { phase, seed }
}

fn closed(seed: Option<u128>, error: ConnectionError) -> (ServerState, ServerAction) {
    (at(ServerPhase::Closed, seed), ServerAction::Finish(Err(error)))
}

#[test]
fn connection_runs_through_its_phases() {
    let (state, action) = HybridPirServer::accept_connection();
    assert_eq!(state, at(ServerPhase::AwaitHello, None));
    assert_eq!(action, ServerAction::Receive);

    let hello = ServerEvent::Message(HybridPirMessage::Hello);
    let step = HybridPirServer::handle_connection(state, hello);
    assert_eq!(step, (at(ServerPhase::AwaitSeed, None), ServerAction::DrawSeed));

    let step = HybridPirServer::handle_connection(step.0, ServerEvent::Seed(42));
    assert_eq!(
        step,
        (at(ServerPhase::SendingSeed, Some(42)), ServerAction::Send(HybridPirMessage::Seed(42)))
    );

    let step = HybridPirServer::handle_connection(step.0, ServerEvent::Done);
    assert_eq!(step, (at(ServerPhase::AwaitQuery, Some(42)), ServerAction::Receive));

    let message = HybridPirMessage::Query(vec![0x81, 0x01], vec![9, 9], vec![4]);
    let step = HybridPirServer::handle_connection(step.0, ServerEvent::Message(message));
    assert_eq!(
        step,
        (
            at(ServerPhase::AwaitReply, Some(42)),
            ServerAction::Respond {
                seed: 42,
                raidpir_query: query(vec![0x81, 0x01]),
                sealpir_key: vec![9, 9],
                sealpir_query: vec![4],
            }
        )
    );

    let step = HybridPirServer::handle_connection(step.0, ServerEvent::Reply(vec![1, 2, 3]));
    assert_eq!(
        step,
        (
            at(ServerPhase::SendingResponse, Some(42)),
            ServerAction::Send(HybridPirMessage::Response(vec![1, 2, 3]))
        )
    );

    let step = HybridPirServer::handle_connection(step.0, ServerEvent::Done);
    assert_eq!(step, (at(ServerPhase::ShuttingDown, Some(42)), ServerAction::Shutdown));

    let step = HybridPirServer::handle_connection(step.0, ServerEvent::Done);
    assert_eq!(step, (at(ServerPhase::Refilling, Some(42)), ServerAction::Preprocess));

    let step = HybridPirServer::handle_connection(step.0, ServerEvent::Done);
    assert_eq!(step, (at(ServerPhase::Closed, Some(42)), ServerAction::Finish(Ok(()))));

    let step = HybridPirServer::handle_connection(step.0, ServerEvent::Done);
    assert_eq!(step, closed(Some(42), ConnectionError::OutOfTurn));
}

#[test]
fn connection_refuses_what_is_not_due() {
    let fresh = at(ServerPhase::AwaitHello, None);
    for message in [
        HybridPirMessage::Seed(1),
        HybridPirMessage::Query(vec![], vec![], vec![]),
        HybridPirMessage::Response(vec![]),
    ] {
        assert_eq!(
            HybridPirServer::handle_connection(fresh, ServerEvent::Message(message)),
            closed(None, ConnectionError::MalformedFrame)
        );
    }
    assert_eq!(
        HybridPirServer::handle_connection(fresh, ServerEvent::Malformed),
        closed(None, ConnectionError::MalformedFrame)
    );

    let waiting = at(ServerPhase::AwaitQuery, Some(5));
    for message in
        [HybridPirMessage::Hello, HybridPirMessage::Seed(1), HybridPirMessage::Response(vec![])]
    {
        assert_eq!(
            HybridPirServer::handle_connection(waiting, ServerEvent::Message(message)),
            closed(Some(5), ConnectionError::MalformedFrame)
        );
    }
    assert_eq!(
        HybridPirServer::handle_connection(waiting, ServerEvent::Malformed),
        closed(Some(5), ConnectionError::MalformedFrame)
    );
}

#[test]
fn connection_closes_on_failures() {
    for phase in [
        ServerPhase::AwaitHello,
        ServerPhase::SendingSeed,
        ServerPhase::AwaitQuery,
        ServerPhase::SendingResponse,
        ServerPhase::ShuttingDown,
    ] {
        assert_eq!(
            HybridPirServer::handle_connection(at(phase, Some(3)), ServerEvent::Failed),
            closed(Some(3), ConnectionError::Transport)
        );
    }
    for phase in [ServerPhase::AwaitSeed, ServerPhase::AwaitReply] {
        assert_eq!(
            HybridPirServer::handle_connection(at(phase, Some(3)), ServerEvent::PrimitiveFailed),
            closed(Some(3), ConnectionError::Primitive)
        );
    }
    assert_eq!(
        HybridPirServer::handle_connection(at(ServerPhase::AwaitHello, None), ServerEvent::Seed(1)),
        closed(None, ConnectionError::OutOfTurn)
    );
    assert_eq!(
        HybridPirServer::handle_connection(at(ServerPhase::AwaitSeed, None), ServerEvent::Done),
        closed(None, ConnectionError::OutOfTurn)
    );
    assert_eq!(
        HybridPirServer::handle_connection(
            at(ServerPhase::AwaitQuery, None),
            ServerEvent::Message(HybridPirMessage::Query(vec![], vec![], vec![]))
        ),
        closed(None, ConnectionError::OutOfTurn)
    );
    assert_eq!(
        HybridPirServer::handle_connection(
            at(ServerPhase::Refilling, Some(1)),
            ServerEvent::Failed
        ),
        closed(Some(1), ConnectionError::OutOfTurn)
    );
}

#[test]
fn only_the_greeting_of_a_new_connection_takes_a_seed() {
    let phases = [
        ServerPhase::AwaitHello,
        ServerPhase::AwaitSeed,
        ServerPhase::SendingSeed,
        ServerPhase::AwaitQuery,
        ServerPhase::AwaitReply,
        ServerPhase::SendingResponse,
        ServerPhase::ShuttingDown,
        ServerPhase::Refilling,
        ServerPhase::Closed,
    ];
    let events = || {
        vec![
            ServerEvent::Message(HybridPirMessage::Hello),
            ServerEvent::Message(HybridPirMessage::Seed(1)),
            ServerEvent::Message(HybridPirMessage::Query(vec![1], vec![2], vec![3])),
            ServerEvent::Message(HybridPirMessage::Response(vec![1])),
            ServerEvent::Malformed,
            ServerEvent::Seed(9),
            ServerEvent::Reply(vec![1]),
            ServerEvent::Done,
            ServerEvent::PrimitiveFailed,
            ServerEvent::Failed,
        ]
    };
    for (rank, phase) in phases.iter().enumerate() {
        for (number, event) in events().into_iter().enumerate() {
            let (next, action) = HybridPirServer::handle_connection(at(*phase, Some(1)), event);
            assert_eq!(action == ServerAction::DrawSeed, rank == 0 && number == 0);
            assert_eq!(action == ServerAction::Preprocess, rank == 6 && number == 7);
            let next_rank = phases.iter().position(|p| *p == next.phase).unwrap();
            assert!(next_rank == 8 || next_rank == rank + 1);
            assert_eq!(matches!(action, ServerAction::Finish(_)), next_rank == 8);
        }
    }
}

fn client() -> HybridPirClient {
    HybridPirClient::new(1000, 8, 2, 2, 64, 2048, 12, 2, vec![0xee; 3])
}

fn on(phase: ClientPhase, index: usize) -> ClientState {
    ClientState { phase, index }
}

fn ended(index: usize, error: QueryError) -> (ClientState, ClientAction) {
    (on(ClientPhase::Done, index), ClientAction::Finish(Err(error)))
}

#[test]
fn query_runs_through_its_phases() {
    let client = client();
    let (state, action) = client.begin_query(999, 2);
    assert_eq!(state, on(ClientPhase::Connecting, 999));
    assert_eq!(action, ClientAction::Connect);

    let step = client.send_query(state, ClientEvent::Connected);
    assert_eq!(
        step,
        (
            on(ClientPhase::AwaitSeeds, 999),
            ClientAction::Exchange(vec![HybridPirMessage::Hello, HybridPirMessage::Hello])
        )
    );

    let seeds = vec![HybridPirMessage::Seed(11), HybridPirMessage::Seed(22)];
    let step = client.send_query(step.0, ClientEvent::Replies(seeds));
    assert_eq!(
        step,
        (
            on(ClientPhase::AwaitQueries, 999),
            ClientAction::Query { raidpir_index: 62, sealpir_index: 7, seeds: vec![11, 22] }
        )
    );

    let queries = vec![query(vec![1; 8]), query(vec![2; 8])];
    let step = client.send_query(step.0, ClientEvent::Queries(queries, vec![5, 6]));
    assert_eq!(
        step,
        (
            on(ClientPhase::AwaitResponses, 999),
            ClientAction::Exchange(vec![
                HybridPirMessage::Query(vec![1; 8], vec![0xee; 3], vec![5, 6]),
                HybridPirMessage::Query(vec![2; 8], vec![0xee; 3], vec![5, 6]),
            ])
        )
    );

    let replies = vec![HybridPirMessage::Response(vec![7]), HybridPirMessage::Response(vec![8])];
    let step = client.send_query(step.0, ClientEvent::Replies(replies));
    assert_eq!(
        step,
        (
            on(ClientPhase::AwaitRecord, 999),
            ClientAction::Combine { sealpir_index: 7, replies: vec![vec![7], vec![8]] }
        )
    );

    let step = client.send_query(step.0, ClientEvent::Record(vec![0xab; 8]));
    assert_eq!(step, (on(ClientPhase::Done, 999), ClientAction::Finish(Ok(vec![0xab; 8]))));

    let step = client.send_query(step.0, ClientEvent::Connected);
    assert_eq!(step, ended(999, QueryError::OutOfTurn));
}

#[test]
fn query_fails_as_a_whole() {
    let client = client();
    for phase in [ClientPhase::Connecting, ClientPhase::AwaitSeeds, ClientPhase::AwaitResponses] {
        assert_eq!(
            client.send_query(on(phase, 5), ClientEvent::Failed),
            ended(5, QueryError::Transport)
        );
    }
    for phase in [ClientPhase::AwaitSeeds, ClientPhase::AwaitResponses] {
        assert_eq!(
            client.send_query(on(phase, 5), ClientEvent::Malformed),
            ended(5, QueryError::MalformedFrame)
        );
    }
    for phase in [ClientPhase::AwaitQueries, ClientPhase::AwaitRecord] {
        assert_eq!(
            client.send_query(on(phase, 5), ClientEvent::PrimitiveFailed),
            ended(5, QueryError::Primitive)
        );
    }
    // one server answers with something else than what is due
    let mixed = vec![HybridPirMessage::Seed(1), HybridPirMessage::Hello];
    assert_eq!(
        client.send_query(on(ClientPhase::AwaitSeeds, 5), ClientEvent::Replies(mixed)),
        ended(5, QueryError::MalformedFrame)
    );
    let mixed = vec![HybridPirMessage::Response(vec![]), HybridPirMessage::Seed(1)];
    assert_eq!(
        client.send_query(on(ClientPhase::AwaitResponses, 5), ClientEvent::Replies(mixed)),
        ended(5, QueryError::MalformedFrame)
    );
    // the scheme makes a query too few
    assert_eq!(
        client.send_query(
            on(ClientPhase::AwaitQueries, 5),
            ClientEvent::Queries(vec![query(vec![0; 8])], vec![])
        ),
        ended(5, QueryError::Primitive)
    );
    // the driver reports a round of the wrong size, or something not asked for
    assert_eq!(
        client.send_query(
            on(ClientPhase::AwaitSeeds, 5),
            ClientEvent::Replies(vec![HybridPirMessage::Seed(1)])
        ),
        ended(5, QueryError::OutOfTurn)
    );
    assert_eq!(
        client.send_query(
            on(ClientPhase::AwaitResponses, 5),
            ClientEvent::Replies(vec![
                HybridPirMessage::Response(vec![]),
                HybridPirMessage::Response(vec![]),
                HybridPirMessage::Response(vec![])
            ])
        ),
        ended(5, QueryError::OutOfTurn)
    );
    assert_eq!(
        client.send_query(on(ClientPhase::Connecting, 5), ClientEvent::Record(vec![])),
        ended(5, QueryError::OutOfTurn)
    );
    assert_eq!(
        client.send_query(on(ClientPhase::AwaitRecord, 5), ClientEvent::Failed),
        ended(5, QueryError::OutOfTurn)
    );
}

#[test]
fn rounds_keep_the_order_of_the_servers() {
    assert_eq!(hello_round(0), vec![]);
    assert_eq!(hello_round(3), vec![HybridPirMessage::Hello; 3]);

    let seeds =
        vec![HybridPirMessage::Seed(3), HybridPirMessage::Seed(1), HybridPirMessage::Seed(2)];
    assert_eq!(collect_seeds(&seeds), Some(vec![3, 1, 2]));
    assert_eq!(collect_seeds(&vec![]), Some(vec![]));
    assert_eq!(collect_seeds(&vec![HybridPirMessage::Seed(3), HybridPirMessage::Hello]), None);

    let replies = vec![HybridPirMessage::Response(vec![2]), HybridPirMessage::Response(vec![1])];
    assert_eq!(collect_responses(&replies), Some(vec![vec![2], vec![1]]));
    assert_eq!(collect_responses(&seeds), None);

    let mut bits: BitVec<Lsb0, u8> = BitVec::from_vec(vec![0xff]);
    bits.truncate(3);
    let round = query_round(&vec![query(vec![1, 2]), RaidPirQuery { bits }], &vec![9], &vec![8, 8]);
    assert_eq!(
        round,
        vec![
            HybridPirMessage::Query(vec![1, 2], vec![9], vec![8, 8]),
            HybridPirMessage::Query(vec![7], vec![9], vec![8, 8]),
        ]
    );
}
