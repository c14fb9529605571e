//! In-memory model of the collaboration service's live-handle session state.
//!
//! The real service owns the mapping from ref identifiers to live document
//! handles; this model captures exactly the request/acknowledgement contract
//! the core relies on — `get_doc` looks a handle up, `create_doc` registers
//! one, deduplicating concurrent creates for the same ref — and additionally
//! records every `create_doc` request it receives, so that callers can state
//! and test which requests a protocol run issued.

use vstd::prelude::*;

use crate::ids::fresh_handle_id;
use crate::store::RefContent;

verus! {

/// One live-handle association: a ref identifier and its handle.
pub struct HandleRow {
    pub ref_id: u128,
    pub handle: String,
}

/// The service's session state: the live-handle table and the log of
/// `create_doc` requests received.
pub struct HandleService {
    pub handles: Vec<HandleRow>,
    pub creates: Vec<RefContent>,
}

/// No two rows of `handles` carry the same ref identifier.
pub open spec fn handle_ids_distinct(handles: Seq<HandleRow>) -> bool {
    forall|i: int, j: int| 0 <= i < j < handles.len() ==> handles[i].ref_id != handles[j].ref_id
}

/// Some row of `handles` carries `ref_id`.
pub open spec fn has_handle(handles: Seq<HandleRow>, ref_id: u128) -> bool {
    exists|i: int| 0 <= i < handles.len() && handles[i].ref_id == ref_id
}

/// Index of the row of `handles` carrying `ref_id`.
pub open spec fn handle_index_of(handles: Seq<HandleRow>, ref_id: u128) -> int {
    choose|i: int| 0 <= i < handles.len() && handles[i].ref_id == ref_id
}

/// The handle registered for `ref_id`.
pub open spec fn handle_of(handles: Seq<HandleRow>, ref_id: u128) -> Seq<char>
    recommends
        has_handle(handles, ref_id),
{
    handles[handle_index_of(handles, ref_id)].handle@
}

impl HandleService {
    /// Well-formedness: at most one handle per ref.
    pub open spec fn wf(self) -> bool {
        handle_ids_distinct(self.handles@)
    }

    /// A live handle for `ref_id` exists.
    pub open spec fn contains_handle(self, ref_id: u128) -> bool {
        has_handle(self.handles@, ref_id)
    }

    /// A fresh service with no live handles and an empty request log.
    pub fn new() -> (s: Self)
        ensures
            s.wf(),
            s.handles@ == Seq::<HandleRow>::empty(),
            s.creates@ == Seq::<RefContent>::empty(),
    {
        HandleService { handles: Vec::new(), creates: Vec::new() }
    }

    /// The `create_doc` request: registers a live handle for `data.ref_id`,
    /// seeded with `data.content`, and acknowledges with the handle.  The
    /// service serializes creates and deduplicates: if a handle already
    /// exists for the ref, that handle is acknowledged and the table is
    /// unchanged — the at-most-one-handle-per-ref guarantee this core
    /// depends on.  Every request received is recorded in the `creates`
    /// log, so callers can state which requests a protocol run issued.
    pub fn create_doc(&mut self, data: RefContent) -> (r: String)
        requires
            old(self).wf(),
        ensures
            final(self).wf(),
            final(self).creates@.len() == old(self).creates@.len() + 1,
            final(self).creates@.last().ref_id == data.ref_id,
            final(self).creates@.last().content@ == data.content@,
            forall|j: int|
                0 <= j < old(self).creates@.len() ==> final(self).creates@[j] == old(
                    self,
                ).creates@[j],
            final(self).contains_handle(data.ref_id),
            r@ == handle_of(final(self).handles@, data.ref_id),
            old(self).contains_handle(data.ref_id) ==> final(self).handles@ == old(
                self,
            ).handles@ && r@ == handle_of(old(self).handles@, data.ref_id),
            !old(self).contains_handle(data.ref_id) ==> final(self).handles@.len() == old(
                self,
            ).handles@.len() + 1,
            forall|x: u128|
                x != data.ref_id ==> #[trigger] final(self).contains_handle(x) == old(
                    self,
                ).contains_handle(x),
            forall|x: u128|
                x != data.ref_id && old(self).contains_handle(x) ==> #[trigger] handle_of(
                    final(self).handles@,
                    x,
                ) == handle_of(old(self).handles@, x),
    {
        let ref_id: u128 = data.ref_id;
        self.creates.push(data);
        match find_handle_index(&self.handles, ref_id) {
            Some(i) => {
                proof {
                    lemma_handle_index_unique(self.handles@, i as int);
                }
                self.handles[i].handle.clone()
            },
            None => {
                let h = fresh_handle_id();
                let row = HandleRow { ref_id, handle: h.clone() };
                self.handles.push(row);
                proof {
                    let pre = old(self).handles@;
                    let post = self.handles@;
                    let n: int = pre.len() as int;
                    assert forall|i: int, j: int|
                        0 <= i < j < post.len() implies post[i].ref_id != post[j].ref_id by {
                        assert(post[i] == pre[i]);
                        if j < n {
                            assert(post[j] == pre[j]);
                        } else {
                            if pre[i].ref_id == ref_id {
                                assert(has_handle(pre, ref_id));
                            }
                        }
                    }
                    assert(handle_ids_distinct(post));
                    assert(post[n].ref_id == ref_id);
                    assert(has_handle(post, ref_id));
                    lemma_handle_index_unique(post, n);
                    assert(handle_of(post, ref_id) == h@);
                    assert forall|x: u128|
                        x != ref_id implies #[trigger] has_handle(post, x) == has_handle(
                        pre,
                        x,
                    ) by {
                        if has_handle(pre, x) {
                            let k: int = handle_index_of(pre, x);
                            assert(0 <= k < n && pre[k].ref_id == x);
                            assert(post[k] == pre[k]);
                            assert(has_handle(post, x));
                        }
                        if has_handle(post, x) {
                            let k: int = handle_index_of(post, x);
                            assert(0 <= k < n + 1 && post[k].ref_id == x);
                            assert(k != n);
                            assert(post[k] == pre[k]);
                            assert(has_handle(pre, x));
                        }
                    }
                    assert forall|x: u128|
                        x != ref_id && has_handle(pre, x) implies #[trigger] handle_of(
                        post,
                        x,
                    ) == handle_of(pre, x) by {
                        let k: int = handle_index_of(pre, x);
                        assert(0 <= k < n && pre[k].ref_id == x);
                        assert(post[k] == pre[k]);
                        lemma_handle_index_unique(pre, k);
                        lemma_handle_index_unique(post, k);
                    }
                }
                h
            },
        }
    }

    /// The `get_doc` request: returns the live handle registered for
    /// `ref_id`, if any.  Issues no `create_doc` and changes no state.
    pub fn get_doc(&self, ref_id: u128) -> (r: Option<String>)
        requires
            self.wf(),
        ensures
            match r {
                Some(h) => self.contains_handle(ref_id) && h@ == handle_of(self.handles@, ref_id),
                None => !self.contains_handle(ref_id),
            },
    {
        match find_handle_index(&self.handles, ref_id) {
            Some(i) => {
                proof {
                    lemma_handle_index_unique(self.handles@, i as int);
                }
                Some(self.handles[i].handle.clone())
            },
            None => None,
        }
    }
}

/// Index of the row of `handles` carrying `ref_id`, if any.
fn find_handle_index(handles: &Vec<HandleRow>, ref_id: u128) -> (r: Option<usize>)
    ensures
        match r {
            Some(i) => i < handles@.len() && handles@[i as int].ref_id == ref_id,
            None => !has_handle(handles@, ref_id),
        },
{
    let mut i: usize = 0;
    while i < handles.len()
        invariant
            i <= handles@.len(),
            forall|k: int| 0 <= k < i ==> handles@[k].ref_id != ref_id,
        decreases handles@.len() - i,
    {
        if handles[i].ref_id == ref_id {
            return Some(i);
        }
        i = i + 1;
    }
    None
}

/// With distinct ref identifiers, the row found at `i` is the row the
/// spec-level lookup designates.
pub proof fn lemma_handle_index_unique(handles: Seq<HandleRow>, i: int)
    requires
        handle_ids_distinct(handles),
        0 <= i < handles.len(),
    ensures
        has_handle(handles, handles[i].ref_id),
        handle_index_of(handles, handles[i].ref_id) == i,
{
    assert(0 <= i < handles.len() && handles[i].ref_id == handles[i].ref_id);
    let j: int = handle_index_of(handles, handles[i].ref_id);
    assert(0 <= j < handles.len() && handles[j].ref_id == handles[i].ref_id);
    if i < j {
        assert(handles[i].ref_id != handles[j].ref_id);
    } else if j < i {
        assert(handles[j].ref_id != handles[i].ref_id);
    }
}

} // verus!
