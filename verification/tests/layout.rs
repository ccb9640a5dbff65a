use hybridpir::client::HybridPirClient;
use hybridpir::layout::{chunk_size, fold_database, row_buffer, uniform, valid_shape, SealPirShape};
use hybridpir::server::HybridPirServer;

fn numbered_db(size: usize, width: usize) -> Vec<Vec<u8>> {
    (0..size).map(|i| (0..width).map(|j| (i * 7 + j * 3 + 1) as u8).collect()).collect()
}

#[test]
fn chunk_size_rounds_up() {
    assert_eq!(chunk_size(1 << 20, 1 << 8), 4096);
    assert_eq!(chunk_size(1000, 64), 16);
    assert_eq!(chunk_size(1024, 64), 16);
    assert_eq!(chunk_size(1025, 64), 17);
    assert_eq!(chunk_size(1, 64), 1);
    assert_eq!(chunk_size(0, 64), 0);
    assert_eq!(chunk_size(7, 1), 7);
    assert_eq!(chunk_size(usize::MAX, 1), usize::MAX);
    assert_eq!(chunk_size(usize::MAX, 2), usize::MAX / 2 + 1);
    assert_eq!(chunk_size(usize::MAX, usize::MAX), 1);
}

#[test]
fn shapes_are_accepted_as_documented() {
    assert!(valid_shape(1 << 20, 8, 2, 2, 1 << 8));
    assert!(valid_shape(1000, 8, 2, 2, 64));
    assert!(valid_shape(200, 3, 3, 2, 48));
    assert!(valid_shape(17, 1, 2, 1, 16));
    // no records, no bytes
    assert!(!valid_shape(0, 8, 2, 2, 0));
    assert!(!valid_shape(1000, 0, 2, 2, 64));
    // fewer than two servers, or a threshold outside of 1..=servers
    assert!(!valid_shape(1000, 8, 1, 1, 64));
    assert!(!valid_shape(1000, 8, 2, 0, 64));
    assert!(!valid_shape(1000, 8, 2, 3, 64));
    // as many rows as records, or more
    assert!(!valid_shape(64, 8, 2, 2, 64));
    assert!(!valid_shape(63, 8, 2, 2, 64));
    // rows not a multiple of eight times the servers
    assert!(!valid_shape(1000, 8, 2, 2, 72));
    assert!(!valid_shape(1000, 8, 3, 2, 64));
    assert!(!valid_shape(1000, 8, 2, 2, 0));
    assert!(!valid_shape(usize::MAX, 8, usize::MAX / 4, 2, 1 << 20));
    // a record wider than the single-server scheme can count
    if usize::MAX > u32::MAX as usize {
        assert!(!valid_shape(1000, u32::MAX as usize + 1, 2, 2, 64));
        assert!(valid_shape(1000, u32::MAX as usize, 2, 2, 64));
        assert!(!valid_shape(usize::MAX, 8, 2, 2, 16));
    }
}

#[test]
fn folding_fills_rows_in_order_and_pads_with_zeros() {
    let db = numbered_db(1000, 8);
    let rows = fold_database(&db, 8, 64);
    assert_eq!(rows.len(), 64);
    for row in &rows {
        assert_eq!(row.len(), 16 * 8);
    }
    assert_eq!(&rows[0][..8], &db[0][..]);
    assert_eq!(&rows[0][8..16], &db[1][..]);
    assert_eq!(&rows[0][120..128], &db[15][..]);
    assert_eq!(&rows[1][..8], &db[16][..]);
    assert_eq!(&rows[62][..8], &db[992][..]);
    assert_eq!(&rows[62][56..64], &db[999][..]);
    assert_eq!(&rows[62][64..], &[0u8; 64][..]);
    assert_eq!(rows[63], vec![0u8; 128]);
}

#[test]
fn folding_small_database_by_hand() {
    let db: Vec<Vec<u8>> = vec![vec![1, 2], vec![3, 4], vec![5, 6], vec![7, 8], vec![9, 10]];
    assert_eq!(
        fold_database(&db, 2, 2),
        vec![vec![1, 2, 3, 4, 5, 6], vec![7, 8, 9, 10, 0, 0]]
    );
    assert_eq!(
        fold_database(&db, 2, 4),
        vec![vec![1, 2, 3, 4], vec![5, 6, 7, 8], vec![9, 10, 0, 0], vec![0, 0, 0, 0]]
    );
    assert_eq!(fold_database(&db, 2, 1), vec![vec![1, 2, 3, 4, 5, 6, 7, 8, 9, 10]]);
    let empty: Vec<Vec<u8>> = vec![];
    assert_eq!(fold_database(&empty, 2, 3), vec![Vec::<u8>::new(); 3]);
}

#[test]
fn every_record_stands_at_its_row_and_column() {
    let shapes = [(1000usize, 8usize, 64usize), (200, 3, 48), (17, 1, 16), (65, 5, 64)];
    for (size, width, rows) in shapes {
        let db = numbered_db(size, width);
        let folded = fold_database(&db, width, rows);
        let chunk = chunk_size(size, rows);
        for index in 0..size {
            let row = index / chunk;
            let column = index % chunk;
            assert_eq!(index, row * chunk + column);
            assert!(row < rows);
            assert_eq!(&folded[row][column * width..(column + 1) * width], &db[index][..]);
            let buffer = row_buffer(folded[row].clone(), chunk * width);
            assert_eq!(&buffer[column * width..(column + 1) * width], &db[index][..]);
        }
    }
}

#[test]
fn row_buffer_pads_and_cuts() {
    assert_eq!(row_buffer(vec![1, 2, 3], 5), vec![1, 2, 3, 0, 0]);
    assert_eq!(row_buffer(vec![1, 2, 3], 3), vec![1, 2, 3]);
    assert_eq!(row_buffer(vec![1, 2, 3], 2), vec![1, 2]);
    assert_eq!(row_buffer(vec![1, 2, 3], 0), Vec::<u8>::new());
    assert_eq!(row_buffer(vec![], 2), vec![0, 0]);
}

#[test]
fn uniform_checks_every_record() {
    assert!(uniform(&numbered_db(10, 4), 4));
    assert!(!uniform(&numbered_db(10, 4), 5));
    assert!(uniform(&vec![], 4));
    let mut ragged = numbered_db(10, 4);
    ragged[9].push(0);
    assert!(!uniform(&ragged, 4));
}

#[test]
fn client_reports_its_shape() {
    let client = HybridPirClient::new(1 << 20, 8, 2, 2, 1 << 8, 2048, 12, 2, vec![1, 2, 3]);
    assert_eq!(client.db_len(), 1 << 20);
    assert_eq!(client.raidpir_servers(), 2);
    assert_eq!(client.raidpir_redundancy(), 2);
    assert_eq!(client.raidpir_size(), 1 << 8);
    assert_eq!(client.raidpir_chunksize(), 4096);
    assert_eq!(client.sealpir_key(), &vec![1, 2, 3]);
    assert_eq!(
        client.sealpir_shape(),
        SealPirShape { num_elements: 4096, element_size: 8, poly_degree: 2048, log: 12, d: 2 }
    );
    let seeds = vec![1u128, 2];
    assert_eq!(client.query(1 << 19, &seeds), (128, 0));
    assert_eq!(client.query(0, &seeds), (0, 0));
    assert_eq!(client.query((1 << 20) - 1, &seeds), (255, 4095));
    assert_eq!(client.query(4097, &seeds), (1, 1));
}

#[test]
fn server_reports_its_shape_and_pads_to_one_row() {
    let db = numbered_db(1000, 8);
    assert!(HybridPirServer::valid_config(&db, 1, 2, 2, 64));
    assert!(!HybridPirServer::valid_config(&db, 2, 2, 2, 64));
    assert!(!HybridPirServer::valid_config(&db, 0, 2, 2, 1000));
    assert!(!HybridPirServer::valid_config(&vec![], 0, 2, 2, 64));
    let mut ragged = db.clone();
    ragged[500].pop();
    assert!(!HybridPirServer::valid_config(&ragged, 0, 2, 2, 64));

    let server = HybridPirServer::new(&db, 1, 2, 2, 64, true, 2048, 12, 2);
    assert_eq!(server.db_len(), 1000);
    assert_eq!(server.element_size(), 8);
    assert_eq!(server.raidpir_id(), 1);
    assert_eq!(server.raidpir_servers(), 2);
    assert_eq!(server.raidpir_redundancy(), 2);
    assert_eq!(server.raidpir_size(), 64);
    assert!(server.raidpir_russians());
    assert_eq!(server.rows(), &fold_database(&db, 8, 64));
    assert_eq!(
        server.sealpir_shape(),
        SealPirShape { num_elements: 16, element_size: 8, poly_degree: 2048, log: 12, d: 2 }
    );
    assert_eq!(server.sealpir_database(vec![7; 100]).len(), 128);
    assert_eq!(&server.sealpir_database(vec![7; 100])[..100], &[7u8; 100][..]);
    assert_eq!(&server.sealpir_database(vec![7; 100])[100..], &[0u8; 28][..]);
    assert_eq!(server.sealpir_database(vec![7; 128]), vec![7; 128]);
    assert_eq!(server.sealpir_database(vec![7; 130]), vec![7; 128]);
}
