use lattice_pi::error::CountError;
use lattice_pi::partition::{chunk_bounds, Chunk};

#[test]
fn chunks_of_ten_columns_for_three_workers() {
    assert_eq!(chunk_bounds(10, 3, 0), Ok(Chunk { start: 0, end: 3 }));
    assert_eq!(chunk_bounds(10, 3, 1), Ok(Chunk { start: 3, end: 6 }));
    assert_eq!(chunk_bounds(10, 3, 2), Ok(Chunk { start: 6, end: 11 }));
}

#[test]
fn single_worker_takes_every_column() {
    assert_eq!(chunk_bounds(0, 1, 0), Ok(Chunk { start: 0, end: 1 }));
    assert_eq!(chunk_bounds(100, 1, 0), Ok(Chunk { start: 0, end: 101 }));
}

#[test]
fn more_workers_than_columns_leaves_all_to_the_last() {
    let mut id: i64 = 0;
    while id < 6 {
        assert_eq!(chunk_bounds(2, 7, id), Ok(Chunk { start: 0, end: 0 }));
        id += 1;
    }
    assert_eq!(chunk_bounds(2, 7, 6), Ok(Chunk { start: 0, end: 3 }));
}

#[test]
fn chunks_cover_the_columns_without_gap_or_overlap() {
    let radii: [i64; 6] = [0, 1, 2, 100, 1_000_003, i64::MAX];
    let workers: [i64; 5] = [1, 2, 3, 7, 64];
    for n in radii {
        for k in workers {
            let mut next: u64 = 0;
            let mut id: i64 = 0;
            while id < k {
                let chunk: Chunk = chunk_bounds(n, k, id).unwrap();
                assert_eq!(chunk.start, next);
                assert!(chunk.start <= chunk.end);
                if id < k - 1 {
                    assert_eq!(chunk.end - chunk.start, (n / k) as u64);
                }
                next = chunk.end;
                id += 1;
            }
            assert_eq!(next, n as u64 + 1);
        }
    }
}

#[test]
fn last_chunk_of_the_largest_radius() {
    assert_eq!(
        chunk_bounds(i64::MAX, 2, 1),
        Ok(Chunk { start: 4_611_686_018_427_387_903, end: 9_223_372_036_854_775_808 })
    );
}

#[test]
fn chunk_bounds_rejects_negative_radius() {
    assert_eq!(chunk_bounds(-1, 1, 0), Err(CountError::InvalidConfiguration));
}

#[test]
fn chunk_bounds_rejects_no_workers() {
    assert_eq!(chunk_bounds(10, 0, 0), Err(CountError::InvalidConfiguration));
    assert_eq!(chunk_bounds(10, -3, 0), Err(CountError::InvalidConfiguration));
}

#[test]
fn chunk_bounds_rejects_unknown_worker() {
    assert_eq!(chunk_bounds(10, 3, 3), Err(CountError::InvalidConfiguration));
    assert_eq!(chunk_bounds(10, 3, -1), Err(CountError::InvalidConfiguration));
}
