use xlstream::error::XlStreamError;
use xlstream::parallel::{use_parallel, worker_count, workers_for, worker_rows, RowCollector, PARALLEL_ROW_THRESHOLD};

#[test]
fn worker_count_defaults_and_floors() {
    assert_eq!(worker_count(Some(8)), 8);
    assert_eq!(worker_count(Some(0)), 1);
    assert!(worker_count(None) >= 1);
}

#[test]
fn parallel_needs_workers_formulas_and_rows() {
    assert!(use_parallel(4, true, true, PARALLEL_ROW_THRESHOLD));
    assert!(!use_parallel(1, true, true, 50_000));
    assert!(!use_parallel(4, false, true, 50_000));
    assert!(!use_parallel(4, true, false, 50_000));
    assert!(!use_parallel(4, true, true, PARALLEL_ROW_THRESHOLD - 1));
}

#[test]
fn worker_rows_split_evenly() {
    assert_eq!(worker_rows(0, 4, 25_000), (1, 6_251));
    assert_eq!(worker_rows(1, 4, 25_000), (6_251, 12_501));
    assert_eq!(worker_rows(3, 4, 25_000), (18_751, 25_001));
}

#[test]
fn worker_rows_last_chunk_is_short() {
    assert_eq!(worker_rows(0, 3, 10), (1, 5));
    assert_eq!(worker_rows(1, 3, 10), (5, 9));
    assert_eq!(worker_rows(2, 3, 10), (9, 11));
}

#[test]
fn worker_rows_cover_every_row_once() {
    for total in [0u32, 1, 7, 10, 100, 1001] {
        for workers in 1usize..9 {
            let mut next = 1u32;
            for id in 0..workers {
                let (start, end) = worker_rows(id, workers, total);
                if start < end {
                    assert_eq!(start, next);
                    next = end;
                }
            }
            assert_eq!(next, total + 1);
        }
    }
}

#[test]
fn collector_hands_out_rows_in_order() {
    let mut c: RowCollector<&str> = RowCollector::new();
    assert!(c.accept_row(2, "b", 3).is_empty());
    assert!(c.accept_row(3, "c", 1).is_empty());
    assert_eq!(c.accept_row(1, "a", 2), vec![(1, "a"), (2, "b"), (3, "c")]);
    assert_eq!(c.accept_row(4, "d", 5), vec![(4, "d")]);
    let (rest, result) = c.finish();
    assert!(rest.is_empty());
    assert_eq!(result.unwrap(), (5, 11));
}

#[test]
fn collector_finishes_rows_after_a_gap() {
    let mut c: RowCollector<u8> = RowCollector::new();
    assert_eq!(c.accept_row(1, 10, 1), vec![(1, 10)]);
    assert!(c.accept_row(5, 50, 1).is_empty());
    assert!(c.accept_row(3, 30, 1).is_empty());
    let (rest, result) = c.finish();
    assert_eq!(rest, vec![(3, 30), (5, 50)]);
    assert_eq!(result.unwrap(), (4, 3));
}

#[test]
fn collector_keeps_the_first_error() {
    let mut c: RowCollector<u8> = RowCollector::new();
    assert!(c.accept_row(2, 20, 1).is_empty());
    c.record_error(XlStreamError::Internal("first".to_string()));
    c.record_error(XlStreamError::Internal("second".to_string()));
    let (rest, result) = c.finish();
    assert!(rest.is_empty());
    match result {
        Err(XlStreamError::Internal(m)) => assert_eq!(m, "first"),
        other => panic!("expected the first error, got {other:?}"),
    }
}

#[test]
fn workers_for_takes_the_request_else_the_cpus() {
    assert_eq!(workers_for(Some(8), 4), 8);
    assert_eq!(workers_for(Some(0), 4), 1);
    assert_eq!(workers_for(None, 4), 4);
    assert_eq!(workers_for(None, 0), 1);
    assert_eq!(workers_for(None, 16), 16);
}
