use bitvec::order::Lsb0;
use bitvec::vec::BitVec;
use rand::rngs::StdRng;
use rand::{RngCore, SeedableRng};

use hybridpir::bits::RaidPirQuery;
use hybridpir::client::{ClientAction, ClientEvent, ClientPhase, HybridPirClient, QueryError};
use hybridpir::layout::SealPirShape;
use hybridpir::server::{
    ConnectionError, HybridPirServer, ServerAction, ServerEvent, ServerPhase, ServerState,
};
use hybridpir::types::{FrameError, HybridPirMessage};

// Stand-ins for the two retrieval schemes, small enough to read: the
// multi-server scheme as plain XOR sharing of a unit vector, the
// single-server scheme without any encryption. They keep the interfaces of
// the real schemes, so that everything between them is exercised as it is.

fn expand(seed: u128, bytes: usize) -> Vec<u8> {
    let mut state = (seed as u64) ^ ((seed >> 64) as u64) ^ 0x9e37_79b9_7f4a_7c15;
    let mut out = Vec::with_capacity(bytes);
    for _ in 0..bytes {
        state ^= state << 13;
        state ^= state >> 7;
        state ^= state << 17;
        out.push((state >> 24) as u8);
    }
    out
}

fn toy_queries(row: usize, seeds: &[u128], rows: usize) -> Vec<RaidPirQuery> {
    let bytes = rows / 8;
    let mut last = vec![0u8; bytes];
    last[row / 8] ^= 1 << (row % 8);
    let mut queries = Vec::new();
    for seed in &seeds[..seeds.len() - 1] {
        let share = expand(*seed, bytes);
        for (l, s) in last.iter_mut().zip(share.iter()) {
            *l ^= *s;
        }
        queries.push(RaidPirQuery { bits: BitVec::<Lsb0, u8>::from_vec(share) });
    }
    queries.push(RaidPirQuery { bits: BitVec::<Lsb0, u8>::from_vec(last) });
    queries
}

fn toy_contribution(rows: &Vec<Vec<u8>>, query: &RaidPirQuery) -> Vec<u8> {
    assert_eq!(query.bits.len(), rows.len());
    let mut sum = vec![0u8; rows[0].len()];
    for (r, row) in rows.iter().enumerate() {
        if query.bits[r] {
            for (s, b) in sum.iter_mut().zip(row.iter()) {
                *s ^= *b;
            }
        }
    }
    sum
}

fn toy_column_query(column: u32) -> Vec<u8> {
    column.to_le_bytes().to_vec()
}

fn toy_reply(buffer: &[u8], shape: SealPirShape, query: &[u8]) -> Vec<u8> {
    assert_eq!(buffer.len(), shape.num_elements as usize * shape.element_size as usize);
    let column = u32::from_le_bytes([query[0], query[1], query[2], query[3]]) as usize;
    let width = shape.element_size as usize;
    buffer[column * width..(column + 1) * width].to_vec()
}

fn toy_combine(parts: &[Vec<u8>]) -> Vec<u8> {
    let mut sum = vec![0u8; parts[0].len()];
    for part in parts {
        for (s, b) in sum.iter_mut().zip(part.iter()) {
            *s ^= *b;
        }
    }
    sum
}

fn random_db(prng: &mut StdRng, size: usize, width: usize) -> Vec<Vec<u8>> {
    let mut db: Vec<Vec<u8>> = Vec::with_capacity(size);
    for _i in 0..size {
        let mut buffer = vec![0; width];
        prng.fill_bytes(&mut buffer);
        db.push(buffer);
    }
    db
}

fn answer(
    server: &HybridPirServer,
    query: &RaidPirQuery,
    sealpir_query: &[u8],
) -> Vec<u8> {
    let raw = toy_contribution(server.rows(), query);
    let buffer = server.sealpir_database(raw);
    toy_reply(&buffer, server.sealpir_shape(), sealpir_query)
}

#[test]
fn test_pir() {
    let mut prng = StdRng::from_entropy();

    let size = 1 << 20;
    let raidpir_servers = 2;
    let raidpir_redundancy = 2;
    let raidpir_size = 1 << 8;
    let index = size >> 1;

    let mut db = random_db(&mut prng, size, 8);
    db[index] = b"deadbeef".to_vec();

    let servers: Vec<HybridPirServer> = (0..raidpir_servers)
        .map(|i| {
            assert!(HybridPirServer::valid_config(
                &db,
                i,
                raidpir_servers,
                raidpir_redundancy,
                raidpir_size
            ));
            HybridPirServer::new(
                &db,
                i,
                raidpir_servers,
                raidpir_redundancy,
                raidpir_size,
                false,
                2048,
                12,
                2,
            )
        })
        .collect();

    let client = HybridPirClient::new(
        db.len(),
        8,
        raidpir_servers,
        raidpir_redundancy,
        raidpir_size,
        2048,
        12,
        2,
        b"evaluation key".to_vec(),
    );

    let seeds: Vec<u128> = servers.iter().map(|_| prng.next_u64() as u128).collect();

    let (raidpir_index, sealpir_index) = client.query(index, &seeds);
    let raidpir_queries = toy_queries(raidpir_index, &seeds, raidpir_size);
    let sealpir_query = toy_column_query(sealpir_index);

    let responses: Vec<Vec<u8>> = servers
        .iter()
        .zip(raidpir_queries.iter())
        .map(|(server, raidpir_query)| answer(server, raidpir_query, &sealpir_query))
        .collect();

    let response = toy_combine(&responses);
    assert!(response == b"deadbeef");
}

#[test]
fn boundary_row_is_found_despite_padding() {
    let mut prng = StdRng::seed_from_u64(1234);
    let size = 1000;
    let rows = 64;
    let db = random_db(&mut prng, size, 8);
    let servers: Vec<HybridPirServer> =
        (0..2).map(|i| HybridPirServer::new(&db, i, 2, 2, rows, false, 2048, 12, 2)).collect();
    let client = HybridPirClient::new(size, 8, 2, 2, rows, 2048, 12, 2, Vec::new());
    assert_eq!(client.raidpir_chunksize(), 16);

    let seeds: Vec<u128> = vec![17, 4711];
    let (row, column) = client.query(999, &seeds);
    assert_eq!((row, column), (62, 7));

    let queries = toy_queries(row, &seeds, rows);
    let column_query = toy_column_query(column);
    let replies: Vec<Vec<u8>> =
        servers.iter().zip(queries.iter()).map(|(s, q)| answer(s, q, &column_query)).collect();
    assert_eq!(toy_combine(&replies), db[999]);
}

#[test]
fn every_index_is_found() {
    let mut prng = StdRng::seed_from_u64(99);
    let size = 200;
    let rows = 48;
    let db = random_db(&mut prng, size, 3);
    let servers: Vec<HybridPirServer> =
        (0..3).map(|i| HybridPirServer::new(&db, i, 3, 2, rows, true, 2048, 12, 2)).collect();
    let client = HybridPirClient::new(size, 3, 3, 2, rows, 2048, 12, 2, Vec::new());
    for index in 0..size {
        let seeds: Vec<u128> = (0..3).map(|j| (index * 3 + j) as u128).collect();
        let (row, column) = client.query(index, &seeds);
        assert_eq!(row * client.raidpir_chunksize() + column as usize, index);
        assert!(row < rows);
        let queries = toy_queries(row, &seeds, rows);
        let column_query = toy_column_query(column);
        let replies: Vec<Vec<u8>> =
            servers.iter().zip(queries.iter()).map(|(s, q)| answer(s, q, &column_query)).collect();
        assert_eq!(toy_combine(&replies), db[index]);
    }
}

// A server with its queue of seeds, served from memory: every frame handed
// in is decoded, the connection taken as far as it goes without another
// frame, and the frames to send are handed back.

struct Host {
    server: HybridPirServer,
    queue: Vec<u128>,
    minted: u128,
    depth: usize,
    drawn: Vec<u128>,
}

impl Host {
    fn new(server: HybridPirServer, depth: usize) -> Host {
        let mut host = Host { server, queue: Vec::new(), minted: 0, depth, drawn: Vec::new() };
        host.preprocess();
        host
    }

    fn preprocess(&mut self) {
        while self.queue.len() < self.depth {
            self.minted += 1;
            self.queue.push(self.minted * 1_000_003 + self.server.raidpir_id() as u128);
        }
    }

    fn seed(&mut self) -> Option<u128> {
        if self.queue.is_empty() {
            None
        } else {
            let seed = self.queue.remove(0);
            self.drawn.push(seed);
            Some(seed)
        }
    }
}

struct Connection {
    state: ServerState,
    result: Option<Result<(), ConnectionError>>,
}

fn open(_host: &Host) -> Connection {
    let (state, action) = HybridPirServer::accept_connection();
    assert_eq!(action, ServerAction::Receive);
    Connection { state, result: None }
}

fn deliver(host: &mut Host, connection: &mut Connection, frame: &[u8]) -> Vec<Vec<u8>> {
    let mut sent = Vec::new();
    let mut event = match HybridPirMessage::read_from(frame) {
        Ok((message, used)) => {
            assert_eq!(used, frame.len());
            ServerEvent::Message(message)
        }
        Err(FrameError::Incomplete { .. }) => ServerEvent::Failed,
        Err(_) => ServerEvent::Malformed,
    };
    loop {
        let (state, action) = HybridPirServer::handle_connection(connection.state, event);
        connection.state = state;
        event = match action {
            ServerAction::Receive => return sent,
            ServerAction::DrawSeed => match host.seed() {
                Some(seed) => ServerEvent::Seed(seed),
                None => ServerEvent::PrimitiveFailed,
            },
            ServerAction::Send(message) => {
                sent.push(message.encode());
                ServerEvent::Done
            }
            ServerAction::Respond { seed, raidpir_query, sealpir_key, sealpir_query } => {
                assert_eq!(Some(&seed), host.drawn.last());
                assert_eq!(sealpir_key, b"evaluation key".to_vec());
                ServerEvent::Reply(answer(&host.server, &raidpir_query, &sealpir_query))
            }
            ServerAction::Shutdown => ServerEvent::Done,
            ServerAction::Preprocess => {
                host.preprocess();
                ServerEvent::Done
            }
            ServerAction::Finish(result) => {
                connection.result = Some(result);
                return sent;
            }
        };
    }
}

fn fetch(
    client: &HybridPirClient,
    hosts: &mut Vec<Host>,
    index: usize,
) -> (Result<Vec<u8>, QueryError>, Vec<u128>) {
    let mut seen: Vec<u128> = Vec::new();
    let mut connections: Vec<Connection> = hosts.iter().map(open).collect();
    let (mut state, mut action) = client.begin_query(index, hosts.len());
    loop {
        let event = match action {
            ClientAction::Connect => ClientEvent::Connected,
            ClientAction::Exchange(round) => {
                let mut replies = Vec::new();
                for (i, message) in round.iter().enumerate() {
                    let mut stream: Vec<u8> = Vec::new();
                    message.write_to(&mut stream);
                    let sent = deliver(&mut hosts[i], &mut connections[i], &stream);
                    assert_eq!(sent.len(), 1);
                    let (reply, used) = HybridPirMessage::read_from(&sent[0]).unwrap();
                    assert_eq!(used, sent[0].len());
                    replies.push(reply);
                }
                ClientEvent::Replies(replies)
            }
            ClientAction::Query { raidpir_index, sealpir_index, seeds } => {
                seen = seeds.clone();
                ClientEvent::Queries(
                    toy_queries(raidpir_index, &seeds, client.raidpir_size()),
                    toy_column_query(sealpir_index),
                )
            }
            ClientAction::Combine { sealpir_index: _, replies } => {
                ClientEvent::Record(toy_combine(&replies))
            }
            ClientAction::Finish(result) => {
                assert_eq!(state.phase, ClientPhase::Done);
                for connection in &connections {
                    if result.is_ok() {
                        assert_eq!(connection.result, Some(Ok(())));
                        assert_eq!(connection.state.phase, ServerPhase::Closed);
                    }
                }
                return (result, seen);
            }
        };
        let next = client.send_query(state, event);
        state = next.0;
        action = next.1;
    }
}

fn hosts_for(db: &Vec<Vec<u8>>, servers: usize, rows: usize, depth: usize) -> Vec<Host> {
    (0..servers)
        .map(|i| {
            Host::new(HybridPirServer::new(db, i, servers, 2, rows, false, 2048, 12, 2), depth)
        })
        .collect()
}

#[test]
fn exchange_in_memory_returns_record_with_fresh_seeds() {
    let mut prng = StdRng::seed_from_u64(7);
    let size = 1 << 12;
    let rows = 1 << 6;
    let index = size >> 1;
    let mut db = random_db(&mut prng, size, 8);
    db[index] = b"deadbeef".to_vec();
    let mut hosts = hosts_for(&db, 2, rows, 4);
    let client =
        HybridPirClient::new(size, 8, 2, 2, rows, 2048, 12, 2, b"evaluation key".to_vec());

    let (first, first_seeds) = fetch(&client, &mut hosts, index);
    assert_eq!(first, Ok(b"deadbeef".to_vec()));
    let (second, second_seeds) = fetch(&client, &mut hosts, index);
    assert_eq!(second, Ok(b"deadbeef".to_vec()));

    assert_eq!(first_seeds.len(), 2);
    assert_eq!(first_seeds[0], hosts[0].drawn[0]);
    assert_eq!(first_seeds[1], hosts[1].drawn[0]);
    assert_eq!(second_seeds[0], hosts[0].drawn[1]);
    assert_eq!(second_seeds[1], hosts[1].drawn[1]);
    assert_ne!(first_seeds[0], second_seeds[0]);
    assert_ne!(first_seeds[1], second_seeds[1]);
}

#[test]
fn query_before_hello_is_refused_and_takes_no_seed() {
    let mut prng = StdRng::seed_from_u64(8);
    let db = random_db(&mut prng, 256, 8);
    let mut hosts = hosts_for(&db, 2, 16, 32);
    let before = hosts[0].queue.len();

    let mut connection = open(&hosts[0]);
    let query = HybridPirMessage::Query(vec![0, 0], b"evaluation key".to_vec(), vec![0, 0, 0, 0]);
    let sent = deliver(&mut hosts[0], &mut connection, &query.encode());

    assert!(sent.is_empty());
    assert_eq!(connection.result, Some(Err(ConnectionError::MalformedFrame)));
    assert_eq!(connection.state.phase, ServerPhase::Closed);
    assert_eq!(hosts[0].queue.len(), before);
    assert!(hosts[0].drawn.is_empty());
}

#[test]
fn thirty_third_query_finds_the_queue_refilled() {
    let mut prng = StdRng::seed_from_u64(9);
    let size = 512;
    let rows = 32;
    let db = random_db(&mut prng, size, 8);
    let mut hosts = hosts_for(&db, 2, rows, 32);
    let client =
        HybridPirClient::new(size, 8, 2, 2, rows, 2048, 12, 2, b"evaluation key".to_vec());
    for round in 0..33 {
        let index = (round * 15) % size;
        let (record, _) = fetch(&client, &mut hosts, index);
        assert_eq!(record, Ok(db[index].clone()));
    }
    assert_eq!(hosts[0].drawn.len(), 33);
    let mut distinct = hosts[0].drawn.clone();
    distinct.sort();
    distinct.dedup();
    assert_eq!(distinct.len(), 33);
}
