use backend_next::error::AppError;
use backend_next::store::RefContent;
use backend_next::store::VersionStore;

fn content(s: &str) -> String {
    String::from(s)
}

#[test]
fn create_ref_reads_back() {
    let mut store = VersionStore::new();
    let r = store.new_ref(content("{\"title\":\"untitled\"}")).unwrap();
    let c = store.read_head_content(r).unwrap();
    assert_eq!(c, "{\"title\":\"untitled\"}");
}

#[test]
fn create_with_id_reads_back() {
    let mut store = VersionStore::new();
    assert!(store.new_ref_with_id(7, content("{\"n\":1}")).is_ok());
    assert_eq!(store.read_head_content(7).unwrap(), "{\"n\":1}");
}

#[test]
fn create_two_refs_distinct_ids() {
    let mut store = VersionStore::new();
    let a = store.new_ref(content("{\"a\":1}")).unwrap();
    let b = store.new_ref(content("{\"b\":2}")).unwrap();
    assert_ne!(a, b);
    assert_eq!(store.read_head_content(a).unwrap(), "{\"a\":1}");
    assert_eq!(store.read_head_content(b).unwrap(), "{\"b\":2}");
}

#[test]
fn autosave_overwrites_in_place() {
    let mut store = VersionStore::new();
    let r = store.new_ref(content("{\"title\":\"untitled\"}")).unwrap();
    let rows_before = store.snapshots.len();
    let head_before = store.refs[0].head;
    let res = store.autosave(RefContent { ref_id: r, content: content("{\"title\":\"renamed\"}") });
    assert!(res.is_ok());
    assert_eq!(store.read_head_content(r).unwrap(), "{\"title\":\"renamed\"}");
    // no growth: same number of snapshot rows, same head
    assert_eq!(store.snapshots.len(), rows_before);
    assert_eq!(store.refs[0].head, head_before);
}

#[test]
fn autosave_missing_ref_is_silent_noop() {
    let mut store = VersionStore::new();
    let r = store.new_ref(content("{\"x\":0}")).unwrap();
    let missing = r.wrapping_add(1);
    let res = store.autosave(RefContent { ref_id: missing, content: content("{\"x\":1}") });
    assert!(res.is_ok());
    // no row changed
    assert_eq!(store.refs.len(), 1);
    assert_eq!(store.snapshots.len(), 1);
    assert_eq!(store.read_head_content(r).unwrap(), "{\"x\":0}");
}

#[test]
fn save_snapshot_preserves_history() {
    let mut store = VersionStore::new();
    let r = store.new_ref(content("{\"v\":1}")).unwrap();
    let old_head = store.refs[0].head;
    let rows_before = store.snapshots.len();
    let res = store.save_snapshot(RefContent { ref_id: r, content: content("{\"v\":2}") });
    assert!(res.is_ok());
    // the new content is the head content
    assert_eq!(store.read_head_content(r).unwrap(), "{\"v\":2}");
    // exactly one snapshot row was added, and the head moved
    assert_eq!(store.snapshots.len(), rows_before + 1);
    assert_ne!(store.refs[0].head, old_head);
    // the prior head snapshot is still readable by its own id, unchanged
    let old_row = &store.snapshots[old_head as usize];
    assert_eq!(old_row.id, old_head);
    assert_eq!(old_row.content, "{\"v\":1}");
}

#[test]
fn save_snapshot_missing_ref_is_silent_noop() {
    let mut store = VersionStore::new();
    let r = store.new_ref(content("{\"v\":1}")).unwrap();
    let missing = r.wrapping_add(1);
    let res = store.save_snapshot(RefContent { ref_id: missing, content: content("{\"v\":2}") });
    assert!(res.is_ok());
    assert_eq!(store.refs.len(), 1);
    assert_eq!(store.snapshots.len(), 1);
    assert_eq!(store.read_head_content(r).unwrap(), "{\"v\":1}");
}

#[test]
fn create_collision_is_atomic() {
    let mut store = VersionStore::new();
    assert!(store.new_ref_with_id(42, content("{\"v\":1}")).is_ok());
    let refs_before = store.refs.len();
    let rows_before = store.snapshots.len();
    // a failure during creation must leave no partially committed ref:
    // the colliding insert fails and neither table gains a row
    let res = store.new_ref_with_id(42, content("{\"v\":2}"));
    assert_eq!(res.unwrap_err(), AppError::Storage);
    assert_eq!(store.refs.len(), refs_before);
    assert_eq!(store.snapshots.len(), rows_before);
    assert_eq!(store.read_head_content(42).unwrap(), "{\"v\":1}");
}

#[test]
fn read_missing_ref_is_not_found() {
    let store = VersionStore::new();
    assert_eq!(store.read_head_content(5).unwrap_err(), AppError::NotFound);
}

#[test]
fn autosave_leaves_other_refs_untouched() {
    let mut store = VersionStore::new();
    let a = store.new_ref(content("{\"a\":1}")).unwrap();
    let b = store.new_ref(content("{\"b\":1}")).unwrap();
    store.autosave(RefContent { ref_id: a, content: content("{\"a\":2}") }).unwrap();
    assert_eq!(store.read_head_content(a).unwrap(), "{\"a\":2}");
    assert_eq!(store.read_head_content(b).unwrap(), "{\"b\":1}");
}

#[test]
fn autosave_after_snapshot_touches_only_new_head() {
    let mut store = VersionStore::new();
    let r = store.new_ref(content("{\"v\":1}")).unwrap();
    let first_head = store.refs[0].head;
    store.save_snapshot(RefContent { ref_id: r, content: content("{\"v\":2}") }).unwrap();
    store.autosave(RefContent { ref_id: r, content: content("{\"v\":3}") }).unwrap();
    assert_eq!(store.read_head_content(r).unwrap(), "{\"v\":3}");
    // the autosave overwrote the checkpointed head; the first snapshot is history, untouched
    assert_eq!(store.snapshots[first_head as usize].content, "{\"v\":1}");
    assert_eq!(store.snapshots.len(), 2);
}

#[test]
fn save_snapshot_accumulates_versions() {
    let mut store = VersionStore::new();
    let r = store.new_ref(content("{\"v\":1}")).unwrap();
    store.save_snapshot(RefContent { ref_id: r, content: content("{\"v\":2}") }).unwrap();
    store.save_snapshot(RefContent { ref_id: r, content: content("{\"v\":3}") }).unwrap();
    assert_eq!(store.snapshots.len(), 3);
    assert_eq!(store.read_head_content(r).unwrap(), "{\"v\":3}");
    let mut seen: Vec<String> = store.snapshots.iter().map(|s| s.content.clone()).collect();
    seen.sort();
    assert_eq!(seen, vec!["{\"v\":1}", "{\"v\":2}", "{\"v\":3}"]);
}
