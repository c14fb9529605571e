use backend_next::error::AppError;
use backend_next::resolver::doc_id;
use backend_next::resolver::handle_from_create;
use backend_next::resolver::handle_from_lookup;
use backend_next::service::HandleService;
use backend_next::store::RefContent;
use backend_next::store::VersionStore;

fn content(s: &str) -> String {
    String::from(s)
}

#[test]
fn resolve_creates_seeded_from_head_content() {
    let mut store = VersionStore::new();
    let r = store.new_ref(content("{\"title\":\"untitled\"}")).unwrap();
    let mut service = HandleService::new();
    // no prior handle: the service must receive exactly one create_doc
    // request carrying (r, current head content)
    let h1 = doc_id(&mut service, &store, r).unwrap();
    assert_eq!(service.creates.len(), 1);
    assert_eq!(service.creates[0].ref_id, r);
    assert_eq!(service.creates[0].content, "{\"title\":\"untitled\"}");
    // a later resolution looks the handle up: same handle, no create_doc
    let h2 = doc_id(&mut service, &store, r).unwrap();
    assert_eq!(h1, h2);
    assert_eq!(service.creates.len(), 1);
}

#[test]
fn resolve_twice_is_idempotent() {
    let mut store = VersionStore::new();
    let r = store.new_ref(content("{}")).unwrap();
    let mut service = HandleService::new();
    let h1 = doc_id(&mut service, &store, r).unwrap();
    let handles_after_first = service.handles.len();
    let h2 = doc_id(&mut service, &store, r).unwrap();
    assert_eq!(h1, h2);
    assert_eq!(service.handles.len(), handles_after_first);
    assert_eq!(service.creates.len(), 1);
}

#[test]
fn resolve_missing_ref_is_not_found() {
    let store = VersionStore::new();
    let mut service = HandleService::new();
    let res = doc_id(&mut service, &store, 99);
    assert_eq!(res.unwrap_err(), AppError::NotFound);
    // a handle is never created for a non-existent ref
    assert_eq!(service.handles.len(), 0);
    assert_eq!(service.creates.len(), 0);
}

#[test]
fn resolve_distinct_refs_get_distinct_handles() {
    let mut store = VersionStore::new();
    let a = store.new_ref(content("{\"a\":1}")).unwrap();
    let b = store.new_ref(content("{\"b\":1}")).unwrap();
    let mut service = HandleService::new();
    let ha = doc_id(&mut service, &store, a).unwrap();
    let hb = doc_id(&mut service, &store, b).unwrap();
    assert_eq!(service.creates.len(), 2);
    assert_eq!(doc_id(&mut service, &store, a).unwrap(), ha);
    assert_eq!(doc_id(&mut service, &store, b).unwrap(), hb);
    assert_eq!(service.creates.len(), 2);
}

#[test]
fn lookup_reply_with_handle() {
    let reply = vec![Some(String::from("h1"))];
    assert_eq!(handle_from_lookup(reply), Some(String::from("h1")));
}

#[test]
fn lookup_reply_without_handle() {
    assert_eq!(handle_from_lookup(vec![None]), None);
    assert_eq!(handle_from_lookup(Vec::new()), None);
}

#[test]
fn create_reply_with_handle() {
    let reply = vec![String::from("h1")];
    assert_eq!(handle_from_create(&reply).unwrap(), "h1");
}

#[test]
fn create_reply_empty_is_service_error() {
    let reply: Vec<String> = Vec::new();
    assert_eq!(handle_from_create(&reply).unwrap_err(), AppError::HandleService);
}

#[test]
fn get_doc_reports_no_handle_on_fresh_service() {
    let service = HandleService::new();
    assert_eq!(service.get_doc(3), None);
}

#[test]
fn create_doc_registers_and_acknowledges_handle() {
    let mut service = HandleService::new();
    let h = service.create_doc(RefContent { ref_id: 3, content: content("{}") });
    assert_eq!(service.get_doc(3), Some(h.clone()));
    // a duplicate create is deduplicated: same handle, table unchanged
    let h2 = service.create_doc(RefContent { ref_id: 3, content: content("{}") });
    assert_eq!(h, h2);
    assert_eq!(service.handles.len(), 1);
    assert_eq!(service.creates.len(), 2);
}
