use huckli::{
    Action, FileInfo, FileStage, FrameError, ImportError, ProcessedLog, S3Error, Scheduler,
    keep_decoded,
};

const THREE_FRAMES_GZ: [u8; 35] = [
    31, 139, 8, 0, 0, 0, 0, 0, 2, 3, 99, 96, 96, 96, 78, 76, 74, 102, 128, 0, 214, 140, 212, 156,
    156, 124, 0, 183, 66, 157, 113, 20, 0, 0, 0,
];

const TRUNCATED_GZ: [u8; 33] = [
    31, 139, 8, 0, 0, 0, 0, 0, 2, 3, 99, 96, 96, 96, 78, 76, 74, 102, 96, 96, 224, 170, 168, 4, 0,
    104, 38, 99, 68, 13, 0, 0, 0,
];

/// Ten one-byte records holding 0 to 9.
const TEN_FRAMES_GZ: [u8; 47] = [
    31, 139, 8, 0, 0, 0, 0, 0, 2, 3, 21, 196, 193, 1, 0, 32, 8, 3, 177, 86, 64, 101, 255, 133, 225,
    242, 136, 36, 107, 153, 125, 40, 40, 169, 232, 210, 163, 79, 61, 148, 114, 27, 62, 50, 0, 0,
    0,
];

fn files(n: i64) -> Vec<FileInfo> {
    (0..n).map(|t| FileInfo::parse(&format!("foo.{}.gz", 1000 + t)).unwrap()).collect()
}

fn fetching(s: &Scheduler) -> usize {
    s.stages.iter().filter(|st| **st == FileStage::Fetching).count()
}

#[test]
fn concurrency_bound_is_respected() {
    let mut s = Scheduler::new(files(25), 10);
    let mut outstanding: Vec<usize> = Vec::new();
    let mut max_outstanding = 0;
    let mut log = ProcessedLog::new();
    loop {
        match s.poll() {
            Action::Fetch(i) => {
                outstanding.push(i);
                max_outstanding = max_outstanding.max(outstanding.len());
                assert!(fetching(&s) <= 10);
                assert!(s.in_flight <= 10);
            }
            Action::Wait => {
                // Complete the most recently started fetch first: out of order.
                let i = outstanding.pop().unwrap();
                let frames = s.on_fetched(i, Ok(THREE_FRAMES_GZ.to_vec())).unwrap();
                assert_eq!(frames.len(), 3);
                let rec = s.on_persisted(i, Ok(()), 7).unwrap();
                assert_eq!(rec.file_name, s.files[i].key);
                log.record(&rec.file_name, &rec.prefix, rec.file_timestamp, rec.processed_at);
                s.on_recorded(i, Ok(()));
            }
            Action::Finished => break,
        }
    }
    assert_eq!(max_outstanding, 10);
    assert!(s.stages.iter().all(|st| *st == FileStage::Done));
    assert_eq!(log.records.len(), 25);
    assert_eq!(log.latest("foo"), Some(1024));
    assert_eq!(s.outcome(), Ok(()));
}

#[test]
fn truncated_file_fails_without_record() {
    let mut s = Scheduler::new(files(1), 10);
    let log = ProcessedLog::new();
    assert_eq!(s.poll(), Action::Fetch(0));
    assert_eq!(s.on_fetched(0, Ok(TRUNCATED_GZ.to_vec())), None);
    assert_eq!(s.stages[0], FileStage::Failed);
    assert_eq!(s.poll(), Action::Finished);
    assert_eq!(log.latest("foo"), None);
    assert_eq!(s.outcome(), Err(ImportError::Frame(FrameError::Truncated)));
}

#[test]
fn corrupt_record_is_skipped_and_file_recorded() {
    let mut s = Scheduler::new(files(1), 10);
    let mut log = ProcessedLog::new();
    assert_eq!(s.poll(), Action::Fetch(0));
    let frames = s.on_fetched(0, Ok(TEN_FRAMES_GZ.to_vec())).unwrap();
    assert_eq!(frames.len(), 10);
    let decoded: Vec<Result<u8, String>> = frames
        .iter()
        .map(|f| if f[0] == 4 { Err("bad record".to_string()) } else { Ok(f[0]) })
        .collect();
    let (rows, skipped) = keep_decoded(decoded);
    assert_eq!(rows, vec![0, 1, 2, 3, 5, 6, 7, 8, 9]);
    assert_eq!(skipped, 1);
    let rec = s.on_persisted(0, Ok(()), 5).unwrap();
    assert_eq!(
        rec,
        huckli::ProcessedFile {
            file_name: "foo.1000.gz".to_string(),
            prefix: "foo".to_string(),
            file_timestamp: 1000,
            processed_at: 5,
        }
    );
    log.record(&rec.file_name, &rec.prefix, rec.file_timestamp, rec.processed_at);
    s.on_recorded(0, Ok(()));
    assert_eq!(s.poll(), Action::Finished);
    assert_eq!(log.records.len(), 1);
    assert_eq!(s.outcome(), Ok(()));
}

#[test]
fn failed_fetch_and_failed_persist_are_reported() {
    let mut s = Scheduler::new(files(3), 2);
    assert_eq!(s.poll(), Action::Fetch(0));
    assert_eq!(s.poll(), Action::Fetch(1));
    assert_eq!(s.poll(), Action::Wait);
    assert_eq!(s.on_fetched(1, Err(S3Error::Rpc("timeout".to_string()))), None);
    assert_eq!(s.poll(), Action::Fetch(2));
    s.on_fetched(0, Ok(THREE_FRAMES_GZ.to_vec())).unwrap();
    assert_eq!(s.on_persisted(0, Err("disk full".to_string()), 1), None);
    s.on_fetched(2, Ok(THREE_FRAMES_GZ.to_vec())).unwrap();
    assert!(s.on_persisted(2, Ok(()), 1).is_some());
    s.on_recorded(2, Ok(()));
    assert_eq!(s.poll(), Action::Finished);
    assert_eq!(s.stages, vec![FileStage::Failed, FileStage::Failed, FileStage::Done]);
    assert_eq!(s.errors.len(), 2);
    assert_eq!(s.outcome(), Err(ImportError::S3(S3Error::Rpc("timeout".to_string()))));
}

#[test]
fn empty_schedule_finishes_at_once() {
    let mut s = Scheduler::new(vec![], 10);
    assert_eq!(s.poll(), Action::Finished);
    assert_eq!(s.outcome(), Ok(()));
}

#[test]
fn keep_decoded_keeps_order_and_counts_skips() {
    let v: Vec<Result<i32, ()>> = vec![Err(()), Ok(1), Ok(2), Err(()), Ok(3)];
    assert_eq!(keep_decoded(v), (vec![1, 2, 3], 2));
    let none: Vec<Result<i32, ()>> = vec![];
    assert_eq!(keep_decoded(none), (vec![], 0));
}

#[test]
fn bucket_rows_groups_by_table_in_order() {
    let rows = vec![(1, "sub-a"), (0, "gw-a"), (2, "promo-a"), (1, "sub-b"), (5, "other"), (0, "gw-b")];
    let buckets = huckli::bucket_rows(rows, 3);
    assert_eq!(buckets, vec![vec!["gw-a", "gw-b"], vec!["sub-a", "sub-b"], vec!["promo-a"]]);
}

#[test]
fn bucket_rows_with_no_rows_gives_empty_batches() {
    let rows: Vec<(usize, u8)> = vec![];
    assert_eq!(huckli::bucket_rows(rows, 2), vec![Vec::<u8>::new(), vec![]]);
    assert_eq!(huckli::bucket_rows(vec![(0usize, 1u8)], 0), Vec::<Vec<u8>>::new());
}

#[test]
fn reimported_batch_only_duplicates_rows() {
    let batch = vec![(0usize, "a"), (1, "b"), (0, "c")];
    let once = huckli::bucket_rows(batch.clone(), 2);
    let mut twice_rows = batch.clone();
    twice_rows.extend(batch);
    let twice = huckli::bucket_rows(twice_rows, 2);
    for t in 0..2 {
        let mut doubled = once[t].clone();
        doubled.extend(once[t].clone());
        assert_eq!(twice[t], doubled);
    }
}
