//! The version store: durable creation and mutation of ref/snapshot records.
//!
//! A ref is a stable document identity whose `head` always designates an
//! existing snapshot; a snapshot is one stored content version.  Autosave
//! overwrites the head snapshot in place (no history), while save-snapshot
//! appends a new snapshot and repoints the head (history preserved).

use vstd::prelude::*;

use crate::error::AppError;
use crate::ids::fresh_ref_id;

verus! {

/// A row of the `refs` table: a document identity and its head pointer.
pub struct RefRow {
    /// Globally unique ref identifier.
    pub id: u128,
    /// Identifier of the snapshot currently designated as this ref's head.
    pub head: u128,
}

/// A row of the `snapshots` table: one stored content version.
pub struct SnapRow {
    /// Store-generated snapshot identifier.
    pub id: u128,
    /// The ref this snapshot was created for (lineage, not used for traversal).
    pub for_ref: u128,
    /// Opaque serialized document payload.
    pub content: String,
    /// Store clock value at the last write of this row.
    pub at_time: u64,
}

/// Payload pairing a ref identifier with document content.
pub struct RefContent {
    pub ref_id: u128,
    pub content: String,
}

/// In-memory relational state of the version store: the `refs` and
/// `snapshots` tables and a monotone write clock that stamps rows.
pub struct VersionStore {
    pub refs: Vec<RefRow>,
    pub snapshots: Vec<SnapRow>,
    pub clock: u64,
}

/// No two rows of `refs` carry the same ref identifier.
pub open spec fn ref_ids_distinct(refs: Seq<RefRow>) -> bool {
    forall|i: int, j: int| 0 <= i < j < refs.len() ==> refs[i].id != refs[j].id
}

/// Some row of `refs` carries `ref_id`.
pub open spec fn has_ref(refs: Seq<RefRow>, ref_id: u128) -> bool {
    exists|i: int| 0 <= i < refs.len() && refs[i].id == ref_id
}

/// Index of a row of `refs` carrying `ref_id` (the row is unique when the
/// identifiers are distinct).
pub open spec fn ref_index_of(refs: Seq<RefRow>, ref_id: u128) -> int {
    choose|i: int| 0 <= i < refs.len() && refs[i].id == ref_id
}

/// The row of `refs` carrying `ref_id`.
pub open spec fn ref_at(refs: Seq<RefRow>, ref_id: u128) -> RefRow
    recommends
        has_ref(refs, ref_id),
{
    refs[ref_index_of(refs, ref_id)]
}

/// The head snapshot identifier of the ref carrying `ref_id`.
pub open spec fn head_of(refs: Seq<RefRow>, ref_id: u128) -> u128
    recommends
        has_ref(refs, ref_id),
{
    ref_at(refs, ref_id).head
}

/// Number of snapshot rows whose lineage points at `ref_id`.
pub open spec fn count_for(snaps: Seq<SnapRow>, ref_id: u128) -> nat
    decreases snaps.len(),
{
    if snaps.len() == 0 {
        0
    } else {
        count_for(snaps.drop_last(), ref_id) + (if snaps.last().for_ref == ref_id {
            1nat
        } else {
            0nat
        })
    }
}

/// State transition of a successful ref creation: one snapshot holding
/// `content` appended to the snapshots table, and one ref appended whose
/// head designates that snapshot; nothing else changed in either table.
pub open spec fn create_post(
    pre: VersionStore,
    post: VersionStore,
    ref_id: u128,
    content: Seq<char>,
) -> bool {
    &&& post.snapshots@.len() == pre.snapshots@.len() + 1
    &&& (forall|j: int|
        0 <= j < pre.snapshots@.len() ==> post.snapshots@[j] == pre.snapshots@[j])
    &&& post.snapshots@.last().id == pre.snapshots@.len() as u128
    &&& post.snapshots@.last().for_ref == ref_id
    &&& post.snapshots@.last().content@ == content
    &&& post.snapshots@.last().at_time == pre.clock
    &&& post.refs@.len() == pre.refs@.len() + 1
    &&& (forall|i: int| 0 <= i < pre.refs@.len() ==> post.refs@[i] == pre.refs@[i])
    &&& post.refs@.last().id == ref_id
    &&& post.refs@.last().head == pre.snapshots@.len() as u128
}

/// Everything a successful ref creation guarantees: the transition above,
/// plus what follows from it — the new ref's head content reads back as the
/// given content, every other ref and its head content are untouched, and
/// the snapshot lineage of exactly the created ref grew by one.
pub open spec fn created(
    pre: VersionStore,
    post: VersionStore,
    ref_id: u128,
    content: Seq<char>,
) -> bool {
    &&& create_post(pre, post, ref_id, content)
    &&& post.wf()
    &&& post.contains_ref(ref_id)
    &&& post.head_content(ref_id) == content
    &&& (forall|x: u128|
        x != ref_id ==> #[trigger] post.contains_ref(x) == pre.contains_ref(x))
    &&& (forall|x: u128|
        x != ref_id && pre.contains_ref(x) ==> #[trigger] post.head_content(x)
            == pre.head_content(x))
    &&& (forall|x: u128|
        #[trigger] count_for(post.snapshots@, x) == count_for(pre.snapshots@, x) + (if x
            == ref_id {
            1nat
        } else {
            0nat
        }))
}

/// State transition of an autosave that found its ref: the head snapshot of
/// `ref_id` is overwritten in place with `content` and restamped; its
/// identifier and lineage, every other snapshot, and the whole refs table
/// are untouched.
pub open spec fn autosave_post(
    pre: VersionStore,
    post: VersionStore,
    ref_id: u128,
    content: Seq<char>,
) -> bool {
    let h: int = head_of(pre.refs@, ref_id) as int;
    &&& post.refs@ == pre.refs@
    &&& post.snapshots@.len() == pre.snapshots@.len()
    &&& (forall|j: int|
        0 <= j < pre.snapshots@.len() && j != h ==> post.snapshots@[j] == pre.snapshots@[j])
    &&& post.snapshots@[h].id == pre.snapshots@[h].id
    &&& post.snapshots@[h].for_ref == pre.snapshots@[h].for_ref
    &&& post.snapshots@[h].content@ == content
    &&& post.snapshots@[h].at_time == pre.clock
}

/// Everything a successful autosave guarantees: the in-place transition
/// above, plus what follows from it — the ref's head content reads back as
/// the new content, no snapshot row was added or removed (no history
/// growth), which snapshot is head is unchanged everywhere, and every other
/// ref's head content is untouched.
pub open spec fn autosaved(
    pre: VersionStore,
    post: VersionStore,
    ref_id: u128,
    content: Seq<char>,
) -> bool {
    &&& autosave_post(pre, post, ref_id, content)
    &&& post.wf()
    &&& (forall|x: u128| #[trigger] post.contains_ref(x) == pre.contains_ref(x))
    &&& (forall|x: u128|
        pre.contains_ref(x) ==> #[trigger] head_of(post.refs@, x) == head_of(pre.refs@, x))
    &&& post.head_content(ref_id) == content
    &&& (forall|x: u128|
        #[trigger] count_for(post.snapshots@, x) == count_for(pre.snapshots@, x))
    &&& (forall|x: u128|
        x != ref_id && pre.contains_ref(x) ==> #[trigger] post.head_content(x)
            == pre.head_content(x))
}

/// State transition of a save-snapshot that found its ref: one snapshot
/// holding `content` appended, the ref's head repointed to it; every prior
/// snapshot row — the previous head included — and every other ref are
/// untouched.
pub open spec fn save_post(
    pre: VersionStore,
    post: VersionStore,
    ref_id: u128,
    content: Seq<char>,
) -> bool {
    let i: int = ref_index_of(pre.refs@, ref_id);
    &&& post.snapshots@.len() == pre.snapshots@.len() + 1
    &&& (forall|j: int|
        0 <= j < pre.snapshots@.len() ==> post.snapshots@[j] == pre.snapshots@[j])
    &&& post.snapshots@.last().id == pre.snapshots@.len() as u128
    &&& post.snapshots@.last().for_ref == ref_id
    &&& post.snapshots@.last().content@ == content
    &&& post.snapshots@.last().at_time == pre.clock
    &&& post.refs@.len() == pre.refs@.len()
    &&& (forall|k: int|
        0 <= k < pre.refs@.len() && k != i ==> post.refs@[k] == pre.refs@[k])
    &&& post.refs@[i].id == ref_id
    &&& post.refs@[i].head == pre.snapshots@.len() as u128
}

/// Everything a successful save-snapshot guarantees: the append-and-repoint
/// transition above, plus what follows from it — the ref's head content
/// reads back as the new content, its snapshot lineage grew by exactly one,
/// the previous head snapshot is still stored under its own identifier with
/// its content unchanged, and every other ref and its head content are
/// untouched.
pub open spec fn saved(
    pre: VersionStore,
    post: VersionStore,
    ref_id: u128,
    content: Seq<char>,
) -> bool {
    &&& save_post(pre, post, ref_id, content)
    &&& post.wf()
    &&& (forall|x: u128| #[trigger] post.contains_ref(x) == pre.contains_ref(x))
    &&& post.head_content(ref_id) == content
    &&& (forall|x: u128|
        #[trigger] count_for(post.snapshots@, x) == count_for(pre.snapshots@, x) + (if x
            == ref_id {
            1nat
        } else {
            0nat
        }))
    &&& post.snapshot_content(head_of(pre.refs@, ref_id)) == pre.head_content(ref_id)
    &&& (forall|x: u128|
        x != ref_id && pre.contains_ref(x) ==> #[trigger] post.head_content(x)
            == pre.head_content(x))
}

impl VersionStore {
    /// Well-formedness: ref identifiers are distinct, snapshot identifiers
    /// are their row positions, every head designates an existing snapshot,
    /// and a head snapshot's lineage names the ref that owns it.
    pub open spec fn wf(self) -> bool {
        &&& ref_ids_distinct(self.refs@)
        &&& forall|j: int|
            0 <= j < self.snapshots@.len() ==> (#[trigger] self.snapshots@[j]).id == j as u128
        &&& forall|i: int|
            0 <= i < self.refs@.len() ==> (#[trigger] self.refs@[i]).head
                < self.snapshots@.len() as u128
        &&& forall|i: int|
            0 <= i < self.refs@.len() ==> self.snapshots@[(#[trigger] self.refs@[i]).head as int].for_ref
                == self.refs@[i].id
    }

    /// Some ref with this identifier exists in the store.
    pub open spec fn contains_ref(self, ref_id: u128) -> bool {
        has_ref(self.refs@, ref_id)
    }

    /// Content of the head snapshot of the ref carrying `ref_id`.
    pub open spec fn head_content(self, ref_id: u128) -> Seq<char>
        recommends
            self.wf(),
            self.contains_ref(ref_id),
    {
        self.snapshots@[head_of(self.refs@, ref_id) as int].content@
    }

    /// Content of the snapshot stored under `snap_id`.
    pub open spec fn snapshot_content(self, snap_id: u128) -> Seq<char>
        recommends
            (snap_id as int) < self.snapshots@.len(),
    {
        self.snapshots@[snap_id as int].content@
    }

    /// An empty store.
    pub fn new() -> (s: Self)
        ensures
            s.wf(),
            s.refs@ == Seq::<RefRow>::empty(),
            s.snapshots@ == Seq::<SnapRow>::empty(),
    {
        VersionStore { refs: Vec::new(), snapshots: Vec::new(), clock: 0 }
    }

    /// Returns the content at the head of `ref_id`, or `NotFound` if no such
    /// ref exists.
    pub fn read_head_content(&self, ref_id: u128) -> (r: Result<String, AppError>)
        requires
            self.wf(),
        ensures
            match r {
                Ok(c) => self.contains_ref(ref_id) && c@ == self.head_content(ref_id),
                Err(e) => e == AppError::NotFound && !self.contains_ref(ref_id),
            },
    {
        match find_ref_index(&self.refs, ref_id) {
            Some(i) => {
                proof {
                    lemma_ref_index_unique(self.refs@, i as int);
                }
                let head: u128 = self.refs[i].head;
                let n: usize = self.snapshots.len();
                proof {
                    assert(self.refs@[i as int].head < self.snapshots@.len() as u128);
                    assert(head < n as u128);
                }
                let j: usize = head as usize;
                Ok(self.snapshots[j].content.clone())
            },
            None => Err(AppError::NotFound),
        }
    }

    /// Creates a new ref under the given identifier, atomically with its
    /// first snapshot holding `content`.  Succeeds exactly when the
    /// identifier is not yet taken; a collision is a storage error and
    /// leaves the store untouched (both rows, or neither).
    pub fn new_ref_with_id(&mut self, ref_id: u128, content: String) -> (r: Result<
        (),
        AppError,
    >)
        requires
            old(self).wf(),
        ensures
            final(self).wf(),
            final(self).clock >= old(self).clock,
            old(self).contains_ref(ref_id) ==> r == Err::<(), AppError>(AppError::Storage)
                && *final(self) == *old(self),
            !old(self).contains_ref(ref_id) ==> r == Ok::<(), AppError>(()) && created(
                *old(self),
                *final(self),
                ref_id,
                content@,
            ),
    {
        match find_ref_index(&self.refs, ref_id) {
            Some(_) => Err(AppError::Storage),
            None => {
                let nid_us: usize = self.snapshots.len();
                let nid: u128 = nid_us as u128;
                let stamp: u64 = self.clock;
                self.snapshots.push(
                    SnapRow { id: nid, for_ref: ref_id, content, at_time: stamp },
                );
                self.refs.push(RefRow { id: ref_id, head: nid });
                if self.clock < u64::MAX {
                    self.clock = self.clock + 1;
                }
                proof {
                    assert(create_post(*old(self), *self, ref_id, content@));
                    lemma_create_then_read(*old(self), *self, ref_id, content@);
                }
                Ok(())
            },
        }
    }

    /// Creates a new ref with initial content, under a freshly generated
    /// time-ordered identifier.  The identifier generator gives no
    /// uniqueness promise, so a collision with an existing ref surfaces as
    /// a storage error and leaves the store untouched; on an empty store no
    /// collision is possible and success is owed.
    pub fn new_ref(&mut self, content: String) -> (r: Result<u128, AppError>)
        requires
            old(self).wf(),
        ensures
            final(self).wf(),
            final(self).clock >= old(self).clock,
            r is Err ==> old(self).refs@.len() > 0,
            match r {
                Ok(ref_id) => !old(self).contains_ref(ref_id) && created(
                    *old(self),
                    *final(self),
                    ref_id,
                    content@,
                ),
                Err(e) => e == AppError::Storage && *final(self) == *old(self),
            },
    {
        let ref_id: u128 = fresh_ref_id();
        match self.new_ref_with_id(ref_id, content) {
            Ok(_) => Ok(ref_id),
            Err(e) => Err(e),
        }
    }

    /// Saves the document by overwriting the snapshot at the current head,
    /// in place: no snapshot is added, no head moves.  A missing ref is a
    /// deliberate silent no-op (best-effort semantics for frequent saves).
    pub fn autosave(&mut self, data: RefContent) -> (r: Result<(), AppError>)
        requires
            old(self).wf(),
        ensures
            final(self).wf(),
            final(self).clock >= old(self).clock,
            r == Ok::<(), AppError>(()),
            !old(self).contains_ref(data.ref_id) ==> *final(self) == *old(self),
            old(self).contains_ref(data.ref_id) ==> autosaved(
                *old(self),
                *final(self),
                data.ref_id,
                data.content@,
            ),
    {
        let RefContent { ref_id, content } = data;
        match find_ref_index(&self.refs, ref_id) {
            None => Ok(()),
            Some(i) => {
                proof {
                    lemma_ref_index_unique(self.refs@, i as int);
                    assert(self.refs@[i as int].head < self.snapshots@.len() as u128);
                }
                let head: u128 = self.refs[i].head;
                let n: usize = self.snapshots.len();
                proof {
                    assert(head < n as u128);
                }
                let j: usize = head as usize;
                let stamp: u64 = self.clock;
                self.snapshots[j].content = content;
                self.snapshots[j].at_time = stamp;
                if self.clock < u64::MAX {
                    self.clock = self.clock + 1;
                }
                proof {
                    assert(autosave_post(*old(self), *self, ref_id, content@));
                    lemma_autosave_then_read(*old(self), *self, ref_id, content@);
                }
                Ok(())
            },
        }
    }

    /// Saves the document by appending a new snapshot and repointing the
    /// ref's head to it; the snapshot at the previous head is retained
    /// untouched, so version history accumulates.  A missing ref is a
    /// silent no-op, consistent with autosave.
    pub fn save_snapshot(&mut self, data: RefContent) -> (r: Result<(), AppError>)
        requires
            old(self).wf(),
        ensures
            final(self).wf(),
            final(self).clock >= old(self).clock,
            r == Ok::<(), AppError>(()),
            !old(self).contains_ref(data.ref_id) ==> *final(self) == *old(self),
            old(self).contains_ref(data.ref_id) ==> saved(
                *old(self),
                *final(self),
                data.ref_id,
                data.content@,
            ),
    {
        let RefContent { ref_id, content } = data;
        match find_ref_index(&self.refs, ref_id) {
            None => Ok(()),
            Some(i) => {
                proof {
                    lemma_ref_index_unique(self.refs@, i as int);
                }
                let nid_us: usize = self.snapshots.len();
                let nid: u128 = nid_us as u128;
                let stamp: u64 = self.clock;
                self.snapshots.push(
                    SnapRow { id: nid, for_ref: ref_id, content, at_time: stamp },
                );
                self.refs[i] = RefRow { id: ref_id, head: nid };
                if self.clock < u64::MAX {
                    self.clock = self.clock + 1;
                }
                proof {
                    assert(save_post(*old(self), *self, ref_id, content@));
                    lemma_save_then_read(*old(self), *self, ref_id, content@);
                }
                Ok(())
            },
        }
    }
}

/// Index of the row of `refs` carrying `ref_id`, if any.
fn find_ref_index(refs: &Vec<RefRow>, ref_id: u128) -> (r: Option<usize>)
    ensures
        match r {
            Some(i) => i < refs@.len() && refs@[i as int].id == ref_id,
            None => !has_ref(refs@, ref_id),
        },
{
    let mut i: usize = 0;
    while i < refs.len()
        invariant
            i <= refs@.len(),
            forall|k: int| 0 <= k < i ==> refs@[k].id != ref_id,
        decreases refs@.len() - i,
    {
        if refs[i].id == ref_id {
            return Some(i);
        }
        i = i + 1;
    }
    None
}

/// Appending a snapshot row extends the lineage count of exactly its ref.
proof fn lemma_count_for_push(snaps: Seq<SnapRow>, row: SnapRow, x: u128)
    ensures
        count_for(snaps.push(row), x) == count_for(snaps, x) + (if row.for_ref == x {
            1nat
        } else {
            0nat
        }),
{
    assert(snaps.push(row).drop_last() =~= snaps);
    assert(snaps.push(row).last() == row);
}

/// Law: creating a ref with content `content` yields a well-formed store in
/// which that content is the new ref's readable head content, every other
/// ref and its head content are untouched, and the snapshot lineage of
/// exactly the created ref grew by one.
pub proof fn lemma_create_then_read(
    pre: VersionStore,
    post: VersionStore,
    ref_id: u128,
    content: Seq<char>,
)
    requires
        pre.wf(),
        !pre.contains_ref(ref_id),
        pre.snapshots@.len() <= usize::MAX,
        create_post(pre, post, ref_id, content),
    ensures
        created(pre, post, ref_id, content),
{
    let n: int = pre.refs@.len() as int;
    let m: int = pre.snapshots@.len() as int;
    assert forall|i: int, j: int|
        0 <= i < j < post.refs@.len() implies post.refs@[i].id != post.refs@[j].id by {
        assert(post.refs@[i] == pre.refs@[i]);
        if j < n {
            assert(post.refs@[j] == pre.refs@[j]);
        } else {
            if pre.refs@[i].id == ref_id {
                assert(has_ref(pre.refs@, ref_id));
            }
        }
    }
    assert(ref_ids_distinct(post.refs@));
    assert forall|j: int|
        0 <= j < post.snapshots@.len() implies (#[trigger] post.snapshots@[j]).id
        == j as u128 by {
        if j < m {
            assert(post.snapshots@[j] == pre.snapshots@[j]);
        } else {
            assert(post.snapshots@[j] == post.snapshots@.last());
        }
    }
    assert forall|i: int|
        0 <= i < post.refs@.len() implies (#[trigger] post.refs@[i]).head
        < post.snapshots@.len() as u128 && post.snapshots@[post.refs@[i].head as int].for_ref
        == post.refs@[i].id by {
        if i < n {
            assert(post.refs@[i] == pre.refs@[i]);
            assert(pre.refs@[i].head < pre.snapshots@.len() as u128);
            assert(post.snapshots@[pre.refs@[i].head as int]
                == pre.snapshots@[pre.refs@[i].head as int]);
        } else {
            assert(post.refs@[i] == post.refs@.last());
            assert(post.snapshots@[m] == post.snapshots@.last());
        }
    }
    assert(post.wf());
    assert(post.refs@[n] == post.refs@.last());
    assert(has_ref(post.refs@, ref_id));
    lemma_ref_index_unique(post.refs@, n);
    assert(post.snapshots@[m] == post.snapshots@.last());
    assert(post.head_content(ref_id) == content);
    assert forall|x: u128|
        x != ref_id implies #[trigger] post.contains_ref(x) == pre.contains_ref(x) by {
        if pre.contains_ref(x) {
            let i: int = ref_index_of(pre.refs@, x);
            assert(0 <= i < n && pre.refs@[i].id == x);
            assert(post.refs@[i] == pre.refs@[i]);
            assert(has_ref(post.refs@, x));
        }
        if post.contains_ref(x) {
            let i: int = ref_index_of(post.refs@, x);
            assert(0 <= i < n + 1 && post.refs@[i].id == x);
            assert(i != n);
            assert(post.refs@[i] == pre.refs@[i]);
            assert(has_ref(pre.refs@, x));
        }
    }
    assert forall|x: u128|
        x != ref_id && pre.contains_ref(x) implies #[trigger] post.head_content(x)
        == pre.head_content(x) by {
        let i: int = ref_index_of(pre.refs@, x);
        assert(0 <= i < n && pre.refs@[i].id == x);
        assert(post.refs@[i] == pre.refs@[i]);
        lemma_ref_index_unique(pre.refs@, i);
        lemma_ref_index_unique(post.refs@, i);
        let h: int = pre.refs@[i].head as int;
        assert(pre.refs@[i].head < pre.snapshots@.len() as u128);
        assert(post.snapshots@[h] == pre.snapshots@[h]);
    }
    let row = post.snapshots@.last();
    assert(post.snapshots@ =~= pre.snapshots@.push(row));
    assert forall|x: u128|
        #[trigger] count_for(post.snapshots@, x) == count_for(pre.snapshots@, x) + (if x
        == ref_id {
        1nat
    } else {
        0nat
    }) by {
        lemma_count_for_push(pre.snapshots@, row, x);
    }
}

/// Two snapshot tables of the same length whose rows agree on lineage have
/// the same lineage counts.
proof fn lemma_count_for_same(s1: Seq<SnapRow>, s2: Seq<SnapRow>, x: u128)
    requires
        s1.len() == s2.len(),
        forall|j: int| 0 <= j < s1.len() ==> s1[j].for_ref == s2[j].for_ref,
    ensures
        count_for(s1, x) == count_for(s2, x),
    decreases s1.len(),
{
    if s1.len() > 0 {
        assert forall|j: int|
            0 <= j < s1.drop_last().len() implies s1.drop_last()[j].for_ref
            == s2.drop_last()[j].for_ref by {
            assert(s1.drop_last()[j] == s1[j]);
            assert(s2.drop_last()[j] == s2[j]);
        }
        lemma_count_for_same(s1.drop_last(), s2.drop_last(), x);
        assert(s1.last().for_ref == s2.last().for_ref);
    }
}

/// Law: an autosave that found its ref makes the new content the ref's
/// readable head content, adds and removes no snapshot row, and leaves
/// every other ref's head content untouched.
pub proof fn lemma_autosave_then_read(
    pre: VersionStore,
    post: VersionStore,
    ref_id: u128,
    content: Seq<char>,
)
    requires
        pre.wf(),
        pre.contains_ref(ref_id),
        autosave_post(pre, post, ref_id, content),
    ensures
        autosaved(pre, post, ref_id, content),
{
    let i: int = ref_index_of(pre.refs@, ref_id);
    assert(0 <= i < pre.refs@.len() && pre.refs@[i].id == ref_id);
    assert(pre.refs@[i].head < pre.snapshots@.len() as u128);
    let h: int = head_of(pre.refs@, ref_id) as int;
    assert(0 <= h < pre.snapshots@.len());
    assert(pre.snapshots@[h].for_ref == ref_id);
    assert forall|j: int|
        0 <= j < post.snapshots@.len() implies (#[trigger] post.snapshots@[j]).id
        == j as u128 by {
        if j != h {
            assert(post.snapshots@[j] == pre.snapshots@[j]);
        }
        assert(pre.snapshots@[j].id == j as u128);
    }
    assert forall|k: int|
        0 <= k < post.refs@.len() implies (#[trigger] post.refs@[k]).head
        < post.snapshots@.len() as u128 && post.snapshots@[post.refs@[k].head as int].for_ref
        == post.refs@[k].id by {
        assert(post.refs@[k] == pre.refs@[k]);
        assert(pre.refs@[k].head < pre.snapshots@.len() as u128);
        let hk: int = pre.refs@[k].head as int;
        if hk != h {
            assert(post.snapshots@[hk] == pre.snapshots@[hk]);
        }
    }
    assert(post.wf());
    assert(post.head_content(ref_id) == content);
    assert forall|x: u128|
        #[trigger] count_for(post.snapshots@, x) == count_for(pre.snapshots@, x) by {
        assert forall|j: int|
            0 <= j < post.snapshots@.len() implies post.snapshots@[j].for_ref
            == pre.snapshots@[j].for_ref by {
            if j != h {
                assert(post.snapshots@[j] == pre.snapshots@[j]);
            }
        }
        lemma_count_for_same(post.snapshots@, pre.snapshots@, x);
    }
    assert forall|x: u128|
        x != ref_id && pre.contains_ref(x) implies #[trigger] post.head_content(x)
        == pre.head_content(x) by {
        let k: int = ref_index_of(pre.refs@, x);
        assert(0 <= k < pre.refs@.len() && pre.refs@[k].id == x);
        assert(pre.refs@[k].head < pre.snapshots@.len() as u128);
        let hk: int = pre.refs@[k].head as int;
        assert(pre.snapshots@[hk].for_ref == x);
        assert(hk != h);
        assert(post.snapshots@[hk] == pre.snapshots@[hk]);
    }
}

/// Law: a save-snapshot that found its ref makes the new content the ref's
/// readable head content, grows the ref's snapshot lineage by exactly one,
/// keeps the previous head snapshot readable under its own identifier with
/// unchanged content, and leaves every other ref's head content untouched.
pub proof fn lemma_save_then_read(
    pre: VersionStore,
    post: VersionStore,
    ref_id: u128,
    content: Seq<char>,
)
    requires
        pre.wf(),
        pre.contains_ref(ref_id),
        pre.snapshots@.len() <= usize::MAX,
        save_post(pre, post, ref_id, content),
    ensures
        saved(pre, post, ref_id, content),
{
    let n: int = pre.refs@.len() as int;
    let m: int = pre.snapshots@.len() as int;
    let i: int = ref_index_of(pre.refs@, ref_id);
    assert(0 <= i < n && pre.refs@[i].id == ref_id);
    assert forall|k: int|
        0 <= k < n implies (#[trigger] post.refs@[k]).id == pre.refs@[k].id by {
        if k != i {
            assert(post.refs@[k] == pre.refs@[k]);
        }
    }
    assert forall|k: int, l: int|
        0 <= k < l < post.refs@.len() implies post.refs@[k].id != post.refs@[l].id by {
        assert(post.refs@[k].id == pre.refs@[k].id);
        assert(post.refs@[l].id == pre.refs@[l].id);
    }
    assert(ref_ids_distinct(post.refs@));
    assert forall|j: int|
        0 <= j < post.snapshots@.len() implies (#[trigger] post.snapshots@[j]).id
        == j as u128 by {
        if j < m {
            assert(post.snapshots@[j] == pre.snapshots@[j]);
        } else {
            assert(post.snapshots@[j] == post.snapshots@.last());
        }
    }
    assert forall|k: int|
        0 <= k < post.refs@.len() implies (#[trigger] post.refs@[k]).head
        < post.snapshots@.len() as u128 && post.snapshots@[post.refs@[k].head as int].for_ref
        == post.refs@[k].id by {
        if k != i {
            assert(post.refs@[k] == pre.refs@[k]);
            assert(pre.refs@[k].head < pre.snapshots@.len() as u128);
            assert(post.snapshots@[pre.refs@[k].head as int]
                == pre.snapshots@[pre.refs@[k].head as int]);
        } else {
            assert(post.snapshots@[m] == post.snapshots@.last());
        }
    }
    assert(post.wf());
    assert forall|x: u128| #[trigger] post.contains_ref(x) == pre.contains_ref(x) by {
        if pre.contains_ref(x) {
            let k: int = ref_index_of(pre.refs@, x);
            assert(0 <= k < n && pre.refs@[k].id == x);
            assert(post.refs@[k].id == x);
            assert(has_ref(post.refs@, x));
        }
        if post.contains_ref(x) {
            let k: int = ref_index_of(post.refs@, x);
            assert(0 <= k < n && post.refs@[k].id == x);
            assert(pre.refs@[k].id == x);
            assert(has_ref(pre.refs@, x));
        }
    }
    lemma_ref_index_unique(post.refs@, i);
    assert(post.snapshots@[m] == post.snapshots@.last());
    assert(post.head_content(ref_id) == content);
    let row = post.snapshots@.last();
    assert(post.snapshots@ =~= pre.snapshots@.push(row));
    assert forall|x: u128|
        #[trigger] count_for(post.snapshots@, x) == count_for(pre.snapshots@, x) + (if x
        == ref_id {
        1nat
    } else {
        0nat
    }) by {
        lemma_count_for_push(pre.snapshots@, row, x);
    }
    assert(pre.refs@[i].head < pre.snapshots@.len() as u128);
    let h: int = head_of(pre.refs@, ref_id) as int;
    assert(post.snapshots@[h] == pre.snapshots@[h]);
    assert(post.snapshot_content(head_of(pre.refs@, ref_id)) == pre.head_content(ref_id));
    assert forall|x: u128|
        x != ref_id && pre.contains_ref(x) implies #[trigger] post.head_content(x)
        == pre.head_content(x) by {
        let k: int = ref_index_of(pre.refs@, x);
        assert(0 <= k < n && pre.refs@[k].id == x);
        assert(k != i);
        assert(post.refs@[k] == pre.refs@[k]);
        lemma_ref_index_unique(post.refs@, k);
        assert(pre.refs@[k].head < pre.snapshots@.len() as u128);
        let hk: int = pre.refs@[k].head as int;
        assert(post.snapshots@[hk] == pre.snapshots@[hk]);
    }
}

/// With distinct identifiers, the row found at `i` is the row the spec-level
/// lookup designates.
pub proof fn lemma_ref_index_unique(refs: Seq<RefRow>, i: int)
    requires
        ref_ids_distinct(refs),
        0 <= i < refs.len(),
    ensures
        has_ref(refs, refs[i].id),
        ref_index_of(refs, refs[i].id) == i,
        ref_at(refs, refs[i].id) == refs[i],
{
    assert(0 <= i < refs.len() && refs[i].id == refs[i].id);
    let j: int = ref_index_of(refs, refs[i].id);
    assert(0 <= j < refs.len() && refs[j].id == refs[i].id);
    if i < j {
        assert(refs[i].id != refs[j].id);
    } else if j < i {
        assert(refs[j].id != refs[i].id);
    }
}

} // verus!
