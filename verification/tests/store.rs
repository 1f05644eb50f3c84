use note_store::note::{Note, ScanError};
use note_store::store::VersionedStore;
use note_store::version::format_version;

fn note(title: &str, date: i64) -> Note {
    Note { title: title.to_string(), date, content: String::new() }
}

#[test]
fn versions_count_up_from_zero() {
    let mut store = VersionedStore::new(vec![]);
    assert_eq!(store.version(), 0);
    let v1 = store.publish(vec![note("a", 1)]);
    let v2 = store.publish(vec![note("b", 2)]);
    let v3 = store.publish(vec![]);
    assert_eq!((v1, v2, v3), (1, 2, 3));
    assert_eq!(store.version(), 3);
}

#[test]
fn current_returns_snapshot_and_version_together() {
    let mut store = VersionedStore::new(vec![note("first", 5)]);
    {
        let (notes, version) = store.current();
        assert_eq!(version, 0);
        assert_eq!(notes.len(), 1);
        assert_eq!(notes[0].title, "first");
    }
    store.publish(vec![note("second", 6), note("third", 7)]);
    let (notes, version) = store.current();
    assert_eq!(version, 1);
    assert_eq!(notes.len(), 2);
    assert_eq!(notes[0].title, "second");
}

#[test]
fn wait_step_serves_changed_version_immediately() {
    let mut store = VersionedStore::new(vec![]);
    store.publish(vec![note("a", 1)]);
    store.publish(vec![note("b", 2)]);
    // A caller that last saw version 0 is served at once.
    assert_eq!(store.wait_for_change_step(0), Some(2));
    // A caller that is up to date must block and look again.
    assert_eq!(store.wait_for_change_step(2), None);
}

#[test]
fn rescan_failure_keeps_previous_snapshot() {
    let mut store = VersionedStore::new(vec![]);
    store.publish(vec![note("kept", 9)]);
    let r = store.apply_rescan(Err(ScanError::DirectoryUnreadable));
    assert_eq!(r, None);
    let (notes, version) = store.current();
    assert_eq!(version, 1);
    assert_eq!(notes[0].title, "kept");
}

#[test]
fn rescan_success_is_published() {
    let mut store = VersionedStore::new(vec![note("old", 1)]);
    let r = store.apply_rescan(Ok(vec![note("new", 2)]));
    assert_eq!(r, Some(1));
    let (notes, version) = store.current();
    assert_eq!(version, 1);
    assert_eq!(notes[0].title, "new");
}

#[test]
fn version_token_is_exact() {
    assert_eq!(format_version("20200101", 42), "build_20200101__data_42");
    assert_eq!(format_version("x", 0), "build_x__data_0");
    assert_eq!(
        format_version("b", u64::MAX),
        format!("build_b__data_{}", u64::MAX)
    );
}
