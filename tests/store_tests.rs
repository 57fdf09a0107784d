use uscrn_ingest::db::models::InsertResult;
use uscrn_ingest::db::repository::chunk_bounds;

#[test]
fn chunks_of_two_thousand_rows() {
    assert_eq!(chunk_bounds(2000), vec![(0, 1000), (1000, 2000)]);
}

#[test]
fn chunks_cover_every_row_once() {
    assert_eq!(chunk_bounds(0), Vec::<(usize, usize)>::new());
    assert_eq!(chunk_bounds(1), vec![(0, 1)]);
    assert_eq!(chunk_bounds(1000), vec![(0, 1000)]);
    assert_eq!(chunk_bounds(2001), vec![(0, 1000), (1000, 2000), (2000, 2001)]);
    let b = chunk_bounds(12345);
    let mut next = 0;
    for (start, end) in &b {
        assert_eq!(*start, next);
        assert!(end - start <= 1000 && end > start);
        next = *end;
    }
    assert_eq!(next, 12345);
}

#[test]
fn insert_update_estimate() {
    let r = InsertResult::from_counts(0, 2);
    assert_eq!(r, InsertResult { inserted: 2, updated: 0, total_rows_affected: 2 });
    let r = InsertResult::from_counts(1, 1);
    assert_eq!(r, InsertResult { inserted: 0, updated: 1, total_rows_affected: 1 });
    let r = InsertResult::from_counts(5, 3);
    assert_eq!(r, InsertResult { inserted: 0, updated: 3, total_rows_affected: 3 });
    let r = InsertResult::from_counts(400, 2000);
    assert_eq!(r, InsertResult { inserted: 1600, updated: 400, total_rows_affected: 2000 });
}
