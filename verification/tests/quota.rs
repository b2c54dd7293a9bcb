use opendal_ext::error::{ErrorKind, Failure, VfsError};
use opendal_ext::quota::{MemoryTracker, QuotaState, QuotaWriter, ReserveStep};

fn raised(e: VfsError) -> Failure {
    match e {
        VfsError::Raised(failure) => failure,
        VfsError::Backend(e) => panic!("{e}"),
    }
}

fn backend() -> VfsError {
    VfsError::Backend(opendal::Error::new(
        opendal::ErrorKind::Unexpected,
        "broken",
    ))
}

fn state(id: &str, limit: u64) -> QuotaState {
    QuotaState::new(id.to_string(), limit)
}

#[test]
fn writes_within_quota_succeed_and_are_tracked() {
    let mut tracker = MemoryTracker::default();
    let mut quota = state("tenant-a", 1024);
    let mut writer = QuotaWriter::new();

    let len = "hello world".len() as u64;
    writer
        .write_tracked(&mut quota, &mut tracker, len, Ok(()))
        .unwrap();
    writer.closed(true);

    assert_eq!(
        tracker.get_bytes_written("tenant-a").unwrap(),
        "hello world".len() as u64
    );
    assert_eq!(writer.reserved, 0);
}

#[test]
fn write_exceeding_quota_is_rejected() {
    let mut tracker = MemoryTracker::default();
    let mut quota = state("tenant-b", 10);
    let mut writer = QuotaWriter::new();

    let len = "this is way too large".len() as u64;
    let err = raised(
        writer
            .write_tracked(&mut quota, &mut tracker, len, Ok(()))
            .unwrap_err(),
    );

    assert_eq!(err.kind, ErrorKind::RateLimited);
    assert_eq!(tracker.get_bytes_written("tenant-b").unwrap(), 0);
    assert_eq!(
        err.message,
        "write quota exceeded for 'tenant-b': 0 used, 21 requested, 10 limit"
    );
    let context: Vec<(&str, &str)> = err
        .context
        .iter()
        .map(|(k, v)| (k.as_str(), v.as_str()))
        .collect();
    assert_eq!(
        context,
        vec![
            ("quota_id", "tenant-b"),
            ("quota_limit", "10"),
            ("quota_used", "0"),
            ("quota_requested", "21"),
        ]
    );
}

#[test]
fn the_tracker_keeps_ids_apart() {
    let mut tracker = MemoryTracker::default();
    assert_eq!(tracker.get_bytes_written("a").unwrap(), 0);
    tracker.set_bytes_written("a", 5).unwrap();
    tracker.set_bytes_written("b", 6).unwrap();
    tracker.set_bytes_written("a", 7).unwrap();
    assert_eq!(tracker.get_bytes_written("a").unwrap(), 7);
    assert_eq!(tracker.get_bytes_written("b").unwrap(), 6);
}

#[test]
fn a_reservation_goes_through_its_steps() {
    let mut quota = state("q", 10);
    assert_eq!(quota.reserve(0).unwrap(), ReserveStep::Done);
    assert_eq!(quota.reserve(4).unwrap(), ReserveStep::Load);
    assert_eq!(quota.loaded(4, Ok(6)).unwrap(), ReserveStep::Store(10));
    assert_eq!(quota.cache, None);
    quota.stored(10, Ok(())).unwrap();
    assert_eq!(quota.cache, Some(10));
    assert_eq!(
        raised(quota.reserve(1).unwrap_err()).kind,
        ErrorKind::RateLimited
    );
    assert_eq!(quota.release(3), Some(7));
    assert_eq!(quota.reserve(3).unwrap(), ReserveStep::Store(10));
}

#[test]
fn a_tracker_that_fails_is_reported() {
    let mut quota = state("q", 10);
    assert!(matches!(
        quota.loaded(1, Err(backend())),
        Err(VfsError::Backend(_))
    ));
    assert_eq!(quota.cache, None);
    assert!(matches!(
        quota.stored(1, Err(backend())),
        Err(VfsError::Backend(_))
    ));
    assert_eq!(quota.cache, None);
}

#[test]
fn a_refusal_remembers_what_was_loaded() {
    let mut quota = state("q", 10);
    assert!(quota.loaded(5, Ok(6)).is_err());
    assert_eq!(quota.cache, Some(6));
}

#[test]
fn totals_are_cut_off() {
    let mut quota = state("q", u64::MAX);
    assert_eq!(
        quota.loaded(2, Ok(u64::MAX - 1)).unwrap(),
        ReserveStep::Store(u64::MAX)
    );
    let mut quota = state("q", u64::MAX - 1);
    assert!(quota.loaded(2, Ok(u64::MAX - 1)).is_err());
    let mut quota = state("q", 10);
    assert_eq!(quota.release(0), None);
    assert_eq!(quota.release(3), Some(0));
    assert_eq!(quota.cache, Some(0));
}

#[test]
fn releasing_undoes_reserving() {
    let mut tracker = MemoryTracker::default();
    tracker.set_bytes_written("q", 3).unwrap();
    let mut quota = state("q", 10);
    quota.reserve_tracked(&mut tracker, 7).unwrap();
    assert_eq!(tracker.get_bytes_written("q").unwrap(), 10);
    assert!(quota.reserve_tracked(&mut tracker, 1).is_err());
    quota.release_tracked(&mut tracker, 7);
    assert_eq!(tracker.get_bytes_written("q").unwrap(), 3);
}

#[test]
fn a_write_that_fails_gives_its_bytes_back() {
    let mut tracker = MemoryTracker::default();
    let mut quota = state("q", 10);
    let mut writer = QuotaWriter::new();
    assert!(matches!(
        writer.write_tracked(&mut quota, &mut tracker, 10, Err(backend())),
        Err(VfsError::Backend(_))
    ));
    assert_eq!(writer.reserved, 0);
    assert_eq!(tracker.get_bytes_written("q").unwrap(), 0);
    writer
        .write_tracked(&mut quota, &mut tracker, 10, Ok(()))
        .unwrap();
}

#[test]
fn aborting_undoes_the_writes() {
    let mut tracker = MemoryTracker::default();
    tracker.set_bytes_written("q", 2).unwrap();
    let mut quota = state("q", 10);
    let mut writer = QuotaWriter::new();
    for (len, outcome) in [(3, Ok(())), (9, Ok(())), (1, Err(backend())), (4, Ok(()))] {
        let _ = writer.write_tracked(&mut quota, &mut tracker, len, outcome);
    }
    assert_eq!(writer.reserved, 7);
    assert_eq!(tracker.get_bytes_written("q").unwrap(), 9);
    assert_eq!(writer.aborted(false), 0);
    let held = writer.aborted(true);
    assert_eq!(held, 7);
    quota.release_tracked(&mut tracker, held);
    assert_eq!(tracker.get_bytes_written("q").unwrap(), 2);
    assert_eq!(writer.reserved, 0);
}

#[test]
fn closing_keeps_what_was_written() {
    let mut writer = QuotaWriter::new();
    writer.granted(5);
    assert_eq!(writer.written(5, true), 0);
    writer.closed(false);
    assert_eq!(writer.reserved, 5);
    writer.closed(true);
    assert_eq!(writer.reserved, 0);
    assert_eq!(writer.aborted(true), 0);
    writer.granted(6);
    assert_eq!(writer.written(6, false), 6);
    assert_eq!(writer.reserved, 0);
}

#[test]
fn the_tracker_is_asked_once() {
    let mut quota = state("q", 10);
    assert_eq!(quota.reserve(4).unwrap(), ReserveStep::Load);
    assert_eq!(quota.loaded(4, Ok(0)).unwrap(), ReserveStep::Store(4));
    quota.stored(4, Ok(())).unwrap();
    assert_eq!(quota.release(1), Some(3));
    assert!(quota.reserve(8).is_err());
    assert_eq!(quota.reserve(2).unwrap(), ReserveStep::Store(5));
    quota.stored(5, Err(backend())).unwrap_err();
    assert_eq!(quota.cache, Some(3));
    assert_eq!(quota.reserve(7).unwrap(), ReserveStep::Store(10));
}

#[test]
fn what_is_recorded_outlives_the_state() {
    let mut tracker = MemoryTracker::default();
    let mut before = state("q", 10);
    before.reserve_tracked(&mut tracker, 8).unwrap();
    let mut after = state("q", 10);
    assert!(after.reserve_tracked(&mut tracker, 3).is_err());
    after.reserve_tracked(&mut tracker, 2).unwrap();
    assert_eq!(tracker.get_bytes_written("q").unwrap(), 10);
}

#[test]
fn aborting_leaves_other_writers_alone() {
    let mut tracker = MemoryTracker::default();
    tracker.set_bytes_written("q", 1).unwrap();
    let mut quota = state("q", 20);
    let mut own = QuotaWriter::new();
    let mut other = QuotaWriter::new();
    own.write_tracked(&mut quota, &mut tracker, 4, Ok(()))
        .unwrap();
    other
        .write_tracked(&mut quota, &mut tracker, 6, Ok(()))
        .unwrap();
    own.write_tracked(&mut quota, &mut tracker, 3, Ok(()))
        .unwrap();
    assert_eq!(tracker.get_bytes_written("q").unwrap(), 14);
    let held = own.aborted(true);
    assert_eq!(held, 7);
    quota.release_tracked(&mut tracker, held);
    assert_eq!(tracker.get_bytes_written("q").unwrap(), 7);
    assert_eq!(other.reserved, 6);
}

#[test]
fn the_total_is_what_was_granted() {
    let mut tracker = MemoryTracker::default();
    tracker.set_bytes_written("q", 2).unwrap();
    let mut quota = state("q", 20);
    let mut granted = 0;
    for len in [5, 0, 9, 5, 4, 1] {
        if quota.reserve_tracked(&mut tracker, len).is_ok() {
            granted += len;
        }
    }
    assert_eq!(granted, 18);
    assert_eq!(tracker.get_bytes_written("q").unwrap(), 2 + granted);
}

#[test]
fn writers_share_one_budget() {
    let mut tracker = MemoryTracker::default();
    tracker.set_bytes_written("q", 1).unwrap();
    let mut quota = state("q", 10);
    let mut writers = [QuotaWriter::new(), QuotaWriter::new(), QuotaWriter::new()];
    for (i, len) in [(0, 3), (1, 4)] {
        writers[i]
            .write_tracked(&mut quota, &mut tracker, len, Ok(()))
            .unwrap();
    }
    writers[0].closed(true);
    for i in [0, 1, 2] {
        assert!(writers[i]
            .write_tracked(&mut quota, &mut tracker, 3, Ok(()))
            .is_err());
    }
    writers[2]
        .write_tracked(&mut quota, &mut tracker, 2, Ok(()))
        .unwrap();
    assert_eq!(tracker.get_bytes_written("q").unwrap(), 10);
    let held = writers[1].aborted(true);
    quota.release_tracked(&mut tracker, held);
    assert_eq!(tracker.get_bytes_written("q").unwrap(), 6);
    writers[0]
        .write_tracked(&mut quota, &mut tracker, 4, Ok(()))
        .unwrap();
}

#[test]
fn a_refused_write_adds_nothing_to_what_is_held() {
    let mut tracker = MemoryTracker::default();
    let mut quota = state("q", 10);
    let mut writer = QuotaWriter::new();
    writer.granted(u64::MAX);
    assert!(writer
        .write_tracked(&mut quota, &mut tracker, 11, Ok(()))
        .is_err());
    assert_eq!(writer.reserved, u64::MAX);
}
