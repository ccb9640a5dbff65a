use hybridpir::types::{
    BenchmarkMessage, BenchmarkParams, FrameError, HybridPirMessage, ProtocolMessage,
    RaidPirMessage, SealPirMessage,
};
use hybridpir::wire::DEFAULT_FIELD_LIMIT;

fn seed_frame() -> Vec<u8> {
    let mut frame = vec![1, 0, 0, 0, 0xd2, 0x04];
    frame.extend_from_slice(&[0; 14]);
    frame
}

fn query_frame() -> Vec<u8> {
    let mut frame = vec![2, 0, 0, 0];
    frame.extend_from_slice(&[2, 0, 0, 0, 0, 0, 0, 0, 0xaa, 0xbb]);
    frame.extend_from_slice(&[3, 0, 0, 0, 0, 0, 0, 0, 1, 2, 3]);
    frame.extend_from_slice(&[0, 0, 0, 0, 0, 0, 0, 0]);
    frame
}

#[test]
fn write_then_read_gives_the_message() {
    let mut buffer: Vec<u8> = Vec::new();

    let message = HybridPirMessage::Seed(1234);
    message.write_to(&mut buffer);

    let (deserialized, used) = HybridPirMessage::read_from(&buffer).unwrap();
    assert!(deserialized == HybridPirMessage::Seed(1234));
    assert_eq!(used, buffer.len());
}

#[test]
fn frames_have_the_documented_bytes() {
    assert_eq!(HybridPirMessage::Hello.encode(), vec![0, 0, 0, 0]);
    assert_eq!(HybridPirMessage::Seed(1234).encode(), seed_frame());
    assert_eq!(
        HybridPirMessage::Query(vec![0xaa, 0xbb], vec![1, 2, 3], vec![]).encode(),
        query_frame()
    );
    assert_eq!(
        HybridPirMessage::Response(vec![9]).encode(),
        vec![3, 0, 0, 0, 1, 0, 0, 0, 0, 0, 0, 0, 9]
    );
    let mut seed = vec![1, 0, 0, 0];
    seed.extend_from_slice(&[0xff; 16]);
    assert_eq!(HybridPirMessage::Seed(u128::MAX).encode(), seed);
}

#[test]
fn frames_agree_with_bincode() {
    assert_eq!(HybridPirMessage::Hello.encode(), bincode::serialize(&0u32).unwrap());
    assert_eq!(
        HybridPirMessage::Seed(0x0123_4567_89ab_cdef_0011_2233_4455_6677).encode(),
        bincode::serialize(&(1u32, 0x0123_4567_89ab_cdef_0011_2233_4455_6677u128)).unwrap()
    );
    let raidpir: Vec<u8> = (0..32).collect();
    let key: Vec<u8> = vec![7; 100];
    let sealpir: Vec<u8> = vec![1, 2, 3, 4, 5];
    assert_eq!(
        HybridPirMessage::Query(raidpir.clone(), key.clone(), sealpir.clone()).encode(),
        bincode::serialize(&(2u32, &raidpir, &key, &sealpir)).unwrap()
    );
    assert_eq!(
        HybridPirMessage::Response(sealpir.clone()).encode(),
        bincode::serialize(&(3u32, &sealpir)).unwrap()
    );
    let params = BenchmarkParams::RaidPir {
        db_size: 1 << 14,
        element_size: 1 << 4,
        servers: 2,
        redundancy: 2,
        russians: true,
    };
    assert_eq!(
        BenchmarkMessage::Setup(params).encode(),
        bincode::serialize(&(0u32, 1u32, 1u64 << 14, 1u64 << 4, 2u64, 2u64, true)).unwrap()
    );
}

#[test]
fn every_variant_survives_the_round_trip() {
    let messages = vec![
        HybridPirMessage::Hello,
        HybridPirMessage::Seed(0),
        HybridPirMessage::Seed(u128::MAX),
        HybridPirMessage::Query(vec![], vec![], vec![]),
        HybridPirMessage::Query(vec![1; 32], vec![2; 1000], vec![3; 77]),
        HybridPirMessage::Response(vec![]),
        HybridPirMessage::Response(vec![0xff; 4096]),
    ];
    for message in messages {
        let frame = message.encode();
        assert_eq!(HybridPirMessage::decode(&frame, 4096), Ok((message.duplicate(), frame.len())));
        let mut followed = frame.clone();
        followed.extend_from_slice(&[0xee; 9]);
        assert_eq!(HybridPirMessage::decode(&followed, 4096), Ok((message, frame.len())));
    }
}

#[test]
fn query_of_the_small_configuration_is_stable() {
    let raidpir: Vec<u8> = (0..(1 << 8) / 8).map(|i| (i * 37 % 256) as u8).collect();
    let key: Vec<u8> = (0..5000).map(|i| (i % 251) as u8).collect();
    let sealpir: Vec<u8> = (0..2048).map(|i| (i % 13) as u8).collect();
    let message = HybridPirMessage::Query(raidpir.clone(), key.clone(), sealpir.clone());
    let frame = message.encode();
    assert_eq!(frame.len(), 4 + 8 + 32 + 8 + 5000 + 8 + 2048);
    match HybridPirMessage::read_from(&frame) {
        Ok((HybridPirMessage::Query(a, b, c), used)) => {
            assert_eq!(a, raidpir);
            assert_eq!(b, key);
            assert_eq!(c, sealpir);
            assert_eq!(used, frame.len());
        }
        other => panic!("{:?}", other),
    }
    assert_eq!(message.encode(), frame);
}

#[test]
fn blob_at_the_ceiling_passes_and_above_it_fails() {
    let limit = 1 << 16;
    let at_ceiling = HybridPirMessage::Response(vec![5; limit]);
    let frame = at_ceiling.encode();
    assert_eq!(HybridPirMessage::decode(&frame, limit), Ok((at_ceiling, frame.len())));

    let above = HybridPirMessage::Response(vec![5; limit + 1]).encode();
    assert_eq!(HybridPirMessage::decode(&above, limit), Err(FrameError::Oversized));
    assert_eq!(HybridPirMessage::decode(&above[..12], limit), Err(FrameError::Oversized));
    assert!(HybridPirMessage::decode(&above, limit + 1).is_ok());

    assert_eq!(DEFAULT_FIELD_LIMIT, 256 * 1024 * 1024);
    let mut huge = vec![3, 0, 0, 0];
    huge.extend_from_slice(&(DEFAULT_FIELD_LIMIT as u64 + 1).to_le_bytes());
    assert_eq!(HybridPirMessage::read_from(&huge), Err(FrameError::Oversized));
    let mut large = vec![3, 0, 0, 0];
    large.extend_from_slice(&(DEFAULT_FIELD_LIMIT as u64).to_le_bytes());
    assert_eq!(
        HybridPirMessage::read_from(&large),
        Err(FrameError::Incomplete { needed: 12 + DEFAULT_FIELD_LIMIT })
    );
    let mut endless = vec![3, 0, 0, 0];
    endless.extend_from_slice(&u64::MAX.to_le_bytes());
    assert_eq!(HybridPirMessage::decode(&endless, usize::MAX), Err(FrameError::Oversized));
}

#[test]
fn unknown_discriminants_are_refused() {
    assert_eq!(HybridPirMessage::read_from(&[4, 0, 0, 0]), Err(FrameError::InvalidTag));
    assert_eq!(HybridPirMessage::read_from(&[0, 1, 0, 0]), Err(FrameError::InvalidTag));
    assert_eq!(HybridPirMessage::read_from(&[0, 0, 0, 0x80, 1, 2]), Err(FrameError::InvalidTag));
    assert_eq!(BenchmarkMessage::read_from(&[4, 0, 0, 0]), Err(FrameError::InvalidTag));
    assert_eq!(BenchmarkMessage::read_from(&[0, 0, 0, 0, 3, 0, 0, 0]), Err(FrameError::InvalidTag));
    assert_eq!(BenchmarkMessage::read_from(&[3, 0, 0, 0, 3, 0, 0, 0]), Err(FrameError::InvalidTag));
    assert_eq!(
        BenchmarkMessage::read_from(&[3, 0, 0, 0, 0, 0, 0, 0, 2, 0, 0, 0]),
        Err(FrameError::InvalidTag)
    );
}

#[test]
fn truncated_frames_ask_for_more_and_never_for_too_much() {
    let frame = query_frame();
    let mut demands = Vec::new();
    for cut in 0..frame.len() {
        match HybridPirMessage::read_from(&frame[..cut]) {
            Err(FrameError::Incomplete { needed }) => {
                assert!(needed > cut);
                assert!(needed <= frame.len());
                demands.push(needed);
            }
            other => panic!("{:?}", other),
        }
    }
    demands.dedup();
    assert_eq!(demands, vec![4, 12, 14, 22, 25, 33]);
    assert!(HybridPirMessage::read_from(&frame).is_ok());

    assert_eq!(HybridPirMessage::read_from(&[]), Err(FrameError::Incomplete { needed: 4 }));
    assert_eq!(
        HybridPirMessage::read_from(&[1, 0, 0, 0, 9]),
        Err(FrameError::Incomplete { needed: 20 })
    );
}

#[test]
fn reading_by_demand_takes_exactly_the_frame() {
    let first = HybridPirMessage::Query(vec![1; 32], vec![2; 300], vec![3; 40]);
    let second = HybridPirMessage::Seed(77);
    let mut stream = first.encode();
    let first_len = stream.len();
    second.write_to(&mut stream);

    let mut taken = 0;
    let message = loop {
        match HybridPirMessage::read_from(&stream[..taken]) {
            Ok((message, used)) => {
                assert_eq!(used, taken);
                break message;
            }
            Err(FrameError::Incomplete { needed }) => taken = needed,
            Err(e) => panic!("{:?}", e),
        }
    };
    assert_eq!(message, first);
    assert_eq!(taken, first_len);
    assert_eq!(HybridPirMessage::read_from(&stream[taken..]), Ok((second, 20)));
}

#[test]
fn decode_at_reads_behind_an_offset() {
    let mut stream = vec![0xde, 0xad];
    HybridPirMessage::Response(vec![1, 2]).write_to(&mut stream);
    HybridPirMessage::Hello.write_to(&mut stream);
    assert_eq!(
        HybridPirMessage::decode_at(&stream, 2, 10),
        Ok((HybridPirMessage::Response(vec![1, 2]), 16))
    );
    assert_eq!(HybridPirMessage::decode_at(&stream, 16, 10), Ok((HybridPirMessage::Hello, 20)));
    assert_eq!(
        HybridPirMessage::decode_at(&stream, 20, 10),
        Err(FrameError::Incomplete { needed: 24 })
    );
}

fn envelopes() -> Vec<BenchmarkMessage> {
    vec![
        BenchmarkMessage::Setup(BenchmarkParams::default_sealpir()),
        BenchmarkMessage::Setup(BenchmarkParams::default_raidpir()),
        BenchmarkMessage::Setup(BenchmarkParams::default_hybridpir()),
        BenchmarkMessage::Setup(BenchmarkParams::RaidPir {
            db_size: usize::MAX,
            element_size: 0,
            servers: 3,
            redundancy: 1,
            russians: true,
        }),
        BenchmarkMessage::RefreshQueue,
        BenchmarkMessage::Ready,
        BenchmarkMessage::Protocol(ProtocolMessage::SealPir(SealPirMessage::Query(
            vec![1, 2],
            vec![3, 4, 5],
        ))),
        BenchmarkMessage::Protocol(ProtocolMessage::SealPir(SealPirMessage::Response(vec![]))),
        BenchmarkMessage::Protocol(ProtocolMessage::RaidPir(RaidPirMessage::Hello)),
        BenchmarkMessage::Protocol(ProtocolMessage::RaidPir(RaidPirMessage::Seed(5))),
        BenchmarkMessage::Protocol(ProtocolMessage::RaidPir(RaidPirMessage::Query(vec![8; 16]))),
        BenchmarkMessage::Protocol(ProtocolMessage::RaidPir(RaidPirMessage::Response(vec![9]))),
        BenchmarkMessage::Protocol(ProtocolMessage::HybridPir(HybridPirMessage::Hello)),
        BenchmarkMessage::Protocol(ProtocolMessage::HybridPir(HybridPirMessage::Seed(6))),
        BenchmarkMessage::Protocol(ProtocolMessage::HybridPir(HybridPirMessage::Query(
            vec![1],
            vec![2, 2],
            vec![3, 3, 3],
        ))),
        BenchmarkMessage::Protocol(ProtocolMessage::HybridPir(HybridPirMessage::Response(
            vec![4; 4],
        ))),
    ]
}

#[test]
fn every_envelope_survives_the_round_trip() {
    for message in envelopes() {
        let mut stream = vec![];
        message.write_to(&mut stream);
        assert_eq!(stream, message.encode());
        let (decoded, used) = BenchmarkMessage::read_from(&stream).unwrap();
        assert_eq!(decoded, message);
        assert_eq!(used, stream.len());
        for cut in 0..stream.len() {
            match BenchmarkMessage::read_from(&stream[..cut]) {
                Err(FrameError::Incomplete { needed }) => {
                    assert!(cut < needed && needed <= stream.len())
                }
                other => panic!("{:?}", other),
            }
        }
    }
}

#[test]
fn envelopes_have_the_documented_bytes() {
    assert_eq!(BenchmarkMessage::RefreshQueue.encode(), vec![1, 0, 0, 0]);
    assert_eq!(BenchmarkMessage::Ready.encode(), vec![2, 0, 0, 0]);
    let mut setup = vec![0, 0, 0, 0, 0, 0, 0, 0];
    setup.extend_from_slice(&[0, 0x40, 0, 0, 0, 0, 0, 0]);
    setup.extend_from_slice(&[0x10, 0, 0, 0, 0, 0, 0, 0]);
    setup.extend_from_slice(&[0, 8, 0, 0]);
    setup.extend_from_slice(&[12, 0, 0, 0]);
    setup.extend_from_slice(&[3, 0, 0, 0]);
    assert_eq!(BenchmarkMessage::Setup(BenchmarkParams::default_sealpir()).encode(), setup);
    assert_eq!(BenchmarkMessage::Setup(BenchmarkParams::default_raidpir()).encode().len(), 41);
    assert_eq!(BenchmarkMessage::Setup(BenchmarkParams::default_hybridpir()).encode().len(), 61);
    let mut seed = vec![3, 0, 0, 0, 2, 0, 0, 0];
    seed.extend_from_slice(&seed_frame());
    assert_eq!(
        BenchmarkMessage::Protocol(ProtocolMessage::HybridPir(HybridPirMessage::Seed(1234)))
            .encode(),
        seed
    );
}

#[test]
fn a_flag_other_than_zero_and_one_is_refused() {
    let message = BenchmarkMessage::Setup(BenchmarkParams::default_raidpir());
    let mut frame = message.encode();
    let last = frame.len() - 1;
    assert_eq!(frame[last], 0);
    frame[last] = 1;
    assert_eq!(
        BenchmarkMessage::read_from(&frame),
        Ok((
            BenchmarkMessage::Setup(BenchmarkParams::RaidPir {
                db_size: 1 << 14,
                element_size: 1 << 4,
                servers: 2,
                redundancy: 2,
                russians: true,
            }),
            frame.len()
        ))
    );
    frame[last] = 2;
    assert_eq!(BenchmarkMessage::read_from(&frame), Err(FrameError::InvalidValue));
}

#[test]
fn envelope_ceiling_applies_to_the_message_inside() {
    let message =
        BenchmarkMessage::Protocol(ProtocolMessage::RaidPir(RaidPirMessage::Response(vec![1; 9])));
    let frame = message.encode();
    assert_eq!(BenchmarkMessage::decode(&frame, 8), Err(FrameError::Oversized));
    assert_eq!(BenchmarkMessage::decode(&frame, 9), Ok((message, frame.len())));
}
