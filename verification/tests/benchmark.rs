use bitvec::order::Lsb0;
use bitvec::vec::BitVec;

use hybridpir::benchmark::{
    raidpir_hello_round, raidpir_query_round, raidpir_responses, raidpir_seeds, refresh_due,
    sealpir_query, sealpir_reply, unwrap_hybridpir_round, wrap_hybridpir_round, QUEUE_SIZE,
};
use hybridpir::bits::RaidPirQuery;
use hybridpir::types::{
    BenchmarkMessage, BenchmarkParams, HybridPirMessage, ProtocolMessage, RaidPirMessage,
    SealPirMessage,
};

fn raidpir(message: RaidPirMessage) -> BenchmarkMessage {
    BenchmarkMessage::Protocol(ProtocolMessage::RaidPir(message))
}

fn hybridpir(message: HybridPirMessage) -> BenchmarkMessage {
    BenchmarkMessage::Protocol(ProtocolMessage::HybridPir(message))
}

#[test]
fn default_parameters_are_the_documented_ones() {
    assert_eq!(
        BenchmarkParams::default_sealpir(),
        BenchmarkParams::SealPir {
            db_size: 1 << 14,
            element_size: 1 << 4,
            poly_degree: 2048,
            log: 12,
            d: 3
        }
    );
    assert_eq!(
        BenchmarkParams::default_raidpir(),
        BenchmarkParams::RaidPir {
            db_size: 1 << 14,
            element_size: 1 << 4,
            servers: 2,
            redundancy: 2,
            russians: false
        }
    );
    assert_eq!(
        BenchmarkParams::default_hybridpir(),
        BenchmarkParams::HybridPir {
            db_size: 1 << 14,
            element_size: 1 << 4,
            raidpir_servers: 2,
            raidpir_redundancy: 2,
            raidpir_size: 1 << 10,
            raidpir_russians: false,
            sealpir_poly_degree: 2048,
            sealpir_log: 24,
            sealpir_d: 1,
        }
    );
}

#[test]
fn parameters_are_resized_for_a_measurement() {
    let sealpir = BenchmarkParams::default_sealpir().with_shape(10027008, 4);
    assert_eq!(
        sealpir,
        BenchmarkParams::SealPir {
            db_size: 10027008,
            element_size: 4,
            poly_degree: 2048,
            log: 12,
            d: 3
        }
    );
    assert_eq!(sealpir.db_size(), 10027008);
    assert_eq!(sealpir.index(), 5013504);
    assert_eq!(sealpir.with_rows(5), sealpir);

    let raidpir = BenchmarkParams::default_raidpir().with_shape(100, 2);
    assert_eq!(
        raidpir,
        BenchmarkParams::RaidPir {
            db_size: 100,
            element_size: 2,
            servers: 2,
            redundancy: 2,
            russians: false
        }
    );
    assert_eq!(raidpir.index(), 50);

    let hybridpir =
        BenchmarkParams::default_hybridpir().with_shape(100007936, 4).with_rows(100007936 / 2048);
    assert_eq!(
        hybridpir,
        BenchmarkParams::HybridPir {
            db_size: 100007936,
            element_size: 4,
            raidpir_servers: 2,
            raidpir_redundancy: 2,
            raidpir_size: 48832,
            raidpir_russians: false,
            sealpir_poly_degree: 2048,
            sealpir_log: 24,
            sealpir_d: 1,
        }
    );
    assert_eq!(hybridpir.index(), 50003968);
    assert_eq!(BenchmarkParams::default_hybridpir().with_shape(1, 1).index(), 0);
}

#[test]
fn queue_is_refilled_every_thirty_two_queries() {
    assert_eq!(QUEUE_SIZE, 32);
    let due: Vec<usize> = (0..100).filter(|i| refresh_due(*i)).collect();
    assert_eq!(due, vec![0, 32, 64, 96]);
    for iteration in 0..1000usize {
        let refill = (0..=iteration).rev().find(|j| refresh_due(*j)).unwrap();
        assert!(iteration - refill < QUEUE_SIZE);
    }
}

#[test]
fn hybrid_rounds_go_in_and_out_of_the_envelope() {
    let round = vec![
        HybridPirMessage::Hello,
        HybridPirMessage::Query(vec![1], vec![2], vec![3]),
        HybridPirMessage::Seed(4),
    ];
    let wrapped = wrap_hybridpir_round(&round);
    assert_eq!(
        wrapped,
        vec![
            hybridpir(HybridPirMessage::Hello),
            hybridpir(HybridPirMessage::Query(vec![1], vec![2], vec![3])),
            hybridpir(HybridPirMessage::Seed(4)),
        ]
    );
    assert_eq!(unwrap_hybridpir_round(&wrapped), Some(round));
    assert_eq!(unwrap_hybridpir_round(&vec![]), Some(vec![]));
    assert_eq!(
        unwrap_hybridpir_round(&vec![hybridpir(HybridPirMessage::Hello), BenchmarkMessage::Ready]),
        None
    );
    assert_eq!(unwrap_hybridpir_round(&vec![raidpir(RaidPirMessage::Hello)]), None);
}

#[test]
fn raidpir_rounds_keep_the_order_of_the_servers() {
    assert_eq!(
        raidpir_hello_round(2),
        vec![raidpir(RaidPirMessage::Hello), raidpir(RaidPirMessage::Hello)]
    );
    let seeds = vec![raidpir(RaidPirMessage::Seed(9)), raidpir(RaidPirMessage::Seed(8))];
    assert_eq!(raidpir_seeds(&seeds), Some(vec![9, 8]));
    assert_eq!(raidpir_seeds(&vec![hybridpir(HybridPirMessage::Seed(9))]), None);
    assert_eq!(raidpir_seeds(&vec![raidpir(RaidPirMessage::Hello)]), None);
    assert_eq!(raidpir_responses(&seeds), None);
    assert_eq!(
        raidpir_responses(&vec![
            raidpir(RaidPirMessage::Response(vec![1, 2])),
            raidpir(RaidPirMessage::Response(vec![]))
        ]),
        Some(vec![vec![1, 2], vec![]])
    );

    let mut bits: BitVec<Lsb0, u8> = BitVec::from_vec(vec![0xf0, 0xff]);
    bits.truncate(9);
    let queries =
        vec![RaidPirQuery { bits: BitVec::from_vec(vec![3, 4]) }, RaidPirQuery { bits }];
    assert_eq!(
        raidpir_query_round(&queries),
        vec![
            raidpir(RaidPirMessage::Query(vec![3, 4])),
            raidpir(RaidPirMessage::Query(vec![0xf0, 1]))
        ]
    );
}

#[test]
fn sealpir_messages_carry_key_query_and_reply() {
    assert_eq!(
        sealpir_query(vec![1], vec![2, 3]),
        BenchmarkMessage::Protocol(ProtocolMessage::SealPir(SealPirMessage::Query(
            vec![1],
            vec![2, 3]
        )))
    );
    let reply =
        BenchmarkMessage::Protocol(ProtocolMessage::SealPir(SealPirMessage::Response(vec![7])));
    assert_eq!(sealpir_reply(reply), Some(vec![7]));
    assert_eq!(sealpir_reply(sealpir_query(vec![1], vec![2, 3])), None);
    assert_eq!(sealpir_reply(BenchmarkMessage::Ready), None);
    assert_eq!(sealpir_reply(raidpir(RaidPirMessage::Response(vec![7]))), None);
}
