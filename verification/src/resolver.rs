//! The handle resolver: lazily create or look up a live collaboration
//! handle for a ref.

use vstd::prelude::*;

use crate::error::AppError;
use crate::service::handle_of;
use crate::service::HandleService;
use crate::store::RefContent;
use crate::store::VersionStore;

verus! {

/// A resolution that found an existing handle `h`: the handle is returned
/// as the service holds it, and the service — its `create_doc` log
/// included — is untouched: no `create_doc` request was issued.
pub open spec fn resolved_by_lookup(
    pre: HandleService,
    post: HandleService,
    ref_id: u128,
    h: Seq<char>,
) -> bool {
    &&& post == pre
    &&& pre.contains_handle(ref_id)
    &&& h == handle_of(pre.handles@, ref_id)
}

/// A resolution that had to create a handle: exactly one `create_doc`
/// request was issued, carrying the ref and the seed content; the
/// acknowledged handle `h` is now registered for the ref; every other
/// live-handle association is untouched.
pub open spec fn resolved_by_create(
    pre: HandleService,
    post: HandleService,
    ref_id: u128,
    seed: Seq<char>,
    h: Seq<char>,
) -> bool {
    &&& post.wf()
    &&& post.contains_handle(ref_id)
    &&& h == handle_of(post.handles@, ref_id)
    &&& post.creates@.len() == pre.creates@.len() + 1
    &&& post.creates@.last().ref_id == ref_id
    &&& post.creates@.last().content@ == seed
    &&& (forall|j: int|
        0 <= j < pre.creates@.len() ==> post.creates@[j] == pre.creates@[j])
    &&& (forall|x: u128|
        x != ref_id ==> #[trigger] post.contains_handle(x) == pre.contains_handle(x))
    &&& (forall|x: u128|
        x != ref_id && pre.contains_handle(x) ==> #[trigger] handle_of(post.handles@, x)
            == handle_of(pre.handles@, x))
}

/// Gets a live collaboration-document handle for the ref, creating one
/// lazily: if the service already holds a handle, it is returned and
/// nothing changes (in particular, no `create_doc` request is issued —
/// resolving again is idempotent); otherwise the ref's current head
/// content is read from the store and a `create_doc` request seeded with
/// exactly that content is issued, whose acknowledged handle is returned
/// and registered for every later resolution.  A handle is never created
/// for a ref the store does not contain: that is `NotFound`.
pub fn doc_id(service: &mut HandleService, store: &VersionStore, ref_id: u128) -> (r: Result<
    String,
    AppError,
>)
    requires
        old(service).wf(),
        store.wf(),
    ensures
        final(service).wf(),
        old(service).contains_handle(ref_id) ==> (r matches Ok(h) && resolved_by_lookup(
            *old(service),
            *final(service),
            ref_id,
            h@,
        )),
        !old(service).contains_handle(ref_id) && store.contains_ref(ref_id) ==> (r matches Ok(h)
            && resolved_by_create(
            *old(service),
            *final(service),
            ref_id,
            store.head_content(ref_id),
            h@,
        )),
        !old(service).contains_handle(ref_id) && !store.contains_ref(ref_id) ==> ({
            &&& *final(service) == *old(service)
            &&& r == Err::<String, AppError>(AppError::NotFound)
        }),
{
    match service.get_doc(ref_id) {
        Some(h) => Ok(h),
        None => match store.read_head_content(ref_id) {
            Err(e) => Err(e),
            Ok(content) => {
                let h = service.create_doc(RefContent { ref_id, content });
                Ok(h)
            },
        },
    }
}

/// Law: resolving is idempotent.  After a resolution that had to create a
/// handle `h` for `ref_id`, the service holds exactly `h` for that ref, so
/// the contract of `doc_id` forces any later resolution with no
/// interleaving create to take the lookup path: it returns the same `h`
/// and leaves the service — its `create_doc` log included — unchanged.
pub proof fn lemma_resolve_idempotent(
    pre: HandleService,
    mid: HandleService,
    ref_id: u128,
    seed: Seq<char>,
    h: Seq<char>,
)
    requires
        resolved_by_create(pre, mid, ref_id, seed, h),
    ensures
        mid.contains_handle(ref_id),
        h == handle_of(mid.handles@, ref_id),
        forall|post: HandleService, h2: Seq<char>|
            #[trigger] resolved_by_lookup(mid, post, ref_id, h2) ==> h2 == h && post == mid,
{
}

/// Extracts the handle from a `get_doc` acknowledgement: the last element of
/// the single-element response array, if present and non-null.
pub fn handle_from_lookup(reply: Vec<Option<String>>) -> (r: Option<String>)
    ensures
        match r {
            Some(h) => reply@.len() > 0 && reply@.last() == Some(h),
            None => reply@.len() == 0 || reply@.last() is None,
        },
{
    let mut reply = reply;
    match reply.pop() {
        Some(Some(h)) => Some(h),
        Some(None) => None,
        None => None,
    }
}

/// Extracts the handle from a `create_doc` acknowledgement: the first
/// element of the single-element response array.  An empty response is a
/// service error.
pub fn handle_from_create(reply: &Vec<String>) -> (r: Result<String, AppError>)
    ensures
        reply@.len() > 0 ==> r == Ok::<String, AppError>(reply@[0]),
        reply@.len() == 0 ==> r == Err::<String, AppError>(AppError::HandleService),
{
    if reply.len() > 0 {
        Ok(reply[0].clone())
    } else {
        Err(AppError::HandleService)
    }
}

} // verus!
