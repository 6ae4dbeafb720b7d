//! Object store: stores byte payloads by ID and retrieves them later.
//!
//! IDs are content hashes, so two identical payloads share an ID and the
//! store dedupes implicitly. Two stores share one contract: an in-memory
//! baseline, and a store whose bytes live in a [`SegmentAllocator`].

use crate::segment_allocator::{SegmentAllocator, spec_page_align_up};
use memmap2::MmapMut;
use vstd::prelude::*;

verus! {

/// 32-byte object identifier: the blake3 hash of the payload bytes.
#[derive(Clone, Copy, Debug, PartialEq, Eq, Hash)]
pub struct ObjectId(pub [u8; 32]);

impl View for ObjectId {
    type V = Seq<u8>;

    open spec fn view(&self) -> Seq<u8> {
        self.0@
    }
}

/// The 32-byte blake3 hash of `data`.
pub uninterp spec fn blake3_digest(data: Seq<u8>) -> Seq<u8>;

/// `blake3::hash`: the digest of `payload`, as the bytes of the returned hash.
#[verifier::external_body]
fn blake3_hash(payload: &[u8]) -> (digest: [u8; 32])
    ensures
        digest@ == blake3_digest(payload@),
{
    *blake3::hash(payload).as_bytes()
}

/// The ID the store gives `payload`.
pub open spec fn content_id(payload: Seq<u8>) -> Seq<u8> {
    blake3_digest(payload)
}

impl ObjectId {
    /// The content-addressed ID of `payload`.
    pub fn of_payload(payload: &[u8]) -> (id: ObjectId)
        ensures
            id@ == content_id(payload@),
    {
        ObjectId(blake3_hash(payload))
    }

    /// Whether two IDs hold the same bytes.
    pub fn same(&self, other: &ObjectId) -> (same: bool)
        ensures
            same == (self@ == other@),
    {
        let mut i: usize = 0;
        while i < 32
            invariant
                i <= 32,
                self.0@.len() == 32,
                other.0@.len() == 32,
                forall|j: int| 0 <= j < i ==> self.0@[j] == other.0@[j],
            decreases 32 - i,
        {
            if self.0[i] != other.0[i] {
                return false;
            }
            i = i + 1;
        }
        assert(self@ =~= other@);
        true
    }
}

/// What `put` does to a store's contents when the payload is taken in:
/// its ID maps to it afterwards.
pub open spec fn put_effect(contents: Map<Seq<u8>, Seq<u8>>, payload: Seq<u8>) -> Map<Seq<u8>, Seq<u8>> {
    contents.insert(content_id(payload), payload)
}

/// What `get` answers for `id` on a store with `contents`.
pub open spec fn get_answer(contents: Map<Seq<u8>, Seq<u8>>, id: Seq<u8>) -> Option<Seq<u8>> {
    if contents.dom().contains(id) {
        Some(contents[id])
    } else {
        None
    }
}

/// A copy of a byte vector.
fn copy_bytes(bytes: &Vec<u8>) -> (copy: Vec<u8>)
    ensures
        copy@ == bytes@,
{
    let mut copy: Vec<u8> = Vec::with_capacity(bytes.len());
    let mut i: usize = 0;
    while i < bytes.len()
        invariant
            i <= bytes.len(),
            copy@ == bytes@.take(i as int),
        decreases bytes.len() - i,
    {
        copy.push(bytes[i]);
        i = i + 1;
        assert(copy@ =~= bytes@.take(i as int));
    }
    assert(bytes@.take(bytes.len() as int) =~= bytes@);
    copy
}

/// The position of the entry for `id` among `ids`, if any.
fn position_of<T>(entries: &Vec<(ObjectId, T)>, id: &ObjectId) -> (pos: Option<usize>)
    ensures
        match pos {
            Some(i) => i < entries@.len() && entries@[i as int].0@ == id@,
            None => forall|j: int| 0 <= j < entries@.len() ==> entries@[j].0@ != id@,
        },
{
    let mut i: usize = 0;
    while i < entries.len()
        invariant
            i <= entries@.len(),
            forall|j: int| 0 <= j < i ==> entries@[j].0@ != id@,
        decreases entries@.len() - i,
    {
        if entries[i].0.same(id) {
            return Some(i);
        }
        i = i + 1;
    }
    None
}

/// In-memory baseline store: payloads kept in a list keyed by their
/// content hash, no two entries with the same ID.
pub struct InMemoryObjectStore {
    objects: Vec<(ObjectId, Vec<u8>)>,
    contents: Ghost<Map<Seq<u8>, Seq<u8>>>,
}

impl InMemoryObjectStore {
    /// The list and the map it stands for agree, and no ID occurs twice.
    pub closed spec fn wf(&self) -> bool {
        &&& forall|i: int, j: int|
            0 <= i < j < self.objects@.len() ==> self.objects@[i].0@ != self.objects@[j].0@
        &&& forall|i: int|
            0 <= i < self.objects@.len() ==> {
                &&& #[trigger] self.contents@.dom().contains(self.objects@[i].0@)
                &&& self.contents@[self.objects@[i].0@] == self.objects@[i].1@
            }
        &&& forall|k: Seq<u8>|
            #[trigger] self.contents@.dom().contains(k) ==> exists|i: int|
                0 <= i < self.objects@.len() && self.objects@[i].0@ == k
    }

    /// The payload stored under each ID.
    pub closed spec fn contents(&self) -> Map<Seq<u8>, Seq<u8>> {
        self.contents@
    }

    pub fn new() -> (store: Self)
        ensures
            store.wf(),
            store.contents() == Map::<Seq<u8>, Seq<u8>>::empty(),
    {
        InMemoryObjectStore { objects: Vec::new(), contents: Ghost(Map::empty()) }
    }

    /// Insert a payload, returning its ID. The in-memory store always has
    /// room, so the answer is always `Some`.
    pub fn put(&mut self, payload: Vec<u8>) -> (id: Option<ObjectId>)
        requires
            old(self).wf(),
        ensures
            final(self).wf(),
            id matches Some(id) && id@ == content_id(payload@),
            final(self).contents() == put_effect(old(self).contents(), payload@),
    {
        let id = ObjectId::of_payload(payload.as_slice());
        let ghost key = id@;
        match position_of(&self.objects, &id) {
            Some(i) => {
                let ghost old_objects = self.objects@;
                self.objects.set(i, (id, payload));
                proof {
                    self.contents@ = self.contents@.insert(key, self.objects@[i as int].1@);
                    assert forall|k: Seq<u8>| #[trigger] self.contents@.dom().contains(k)
                        implies exists|j: int| 0 <= j < self.objects@.len() && self.objects@[j].0@ == k by {
                        if k != key {
                            let j = choose|j: int| 0 <= j < old_objects.len() && old_objects[j].0@ == k;
                            assert(self.objects@[j].0@ == k);
                        } else {
                            assert(self.objects@[i as int].0@ == k);
                        }
                    }
                }
            },
            None => {
                let ghost old_objects = self.objects@;
                self.objects.push((id, payload));
                proof {
                    let n = old_objects.len() as int;
                    self.contents@ = self.contents@.insert(key, self.objects@[n].1@);
                    assert forall|k: Seq<u8>| #[trigger] self.contents@.dom().contains(k)
                        implies exists|j: int| 0 <= j < self.objects@.len() && self.objects@[j].0@ == k by {
                        if k != key {
                            let j = choose|j: int| 0 <= j < old_objects.len() && old_objects[j].0@ == k;
                            assert(self.objects@[j].0@ == k);
                        } else {
                            assert(self.objects@[n].0@ == k);
                        }
                    }
                }
            },
        }
        Some(id)
    }

    /// Look up a payload by ID. Returns `None` if no such object exists.
    pub fn get(&self, id: &ObjectId) -> (payload: Option<Vec<u8>>)
        requires
            self.wf(),
        ensures
            payload matches Some(p) ==> get_answer(self.contents(), id@) == Some(p@),
            payload is None ==> get_answer(self.contents(), id@) is None,
    {
        match position_of(&self.objects, id) {
            Some(i) => Some(copy_bytes(&self.objects[i].1)),
            None => {
                assert(!self.contents@.dom().contains(id@));
                None
            },
        }
    }

    /// Drop a payload from the store.
    pub fn release(&mut self, id: &ObjectId)
        requires
            old(self).wf(),
        ensures
            final(self).wf(),
            final(self).contents() == old(self).contents().remove(id@),
    {
        match position_of(&self.objects, id) {
            Some(i) => {
                let ghost old_objects = self.objects@;
                self.objects.remove(i);
                proof {
                    self.contents@ = self.contents@.remove(id@);
                    assert forall|j: int| 0 <= j < self.objects@.len() implies
                        self.objects@[j] == old_objects[if j < i { j } else { j + 1 }] by {}
                    assert forall|k: Seq<u8>| #[trigger] self.contents@.dom().contains(k)
                        implies exists|j: int| 0 <= j < self.objects@.len() && self.objects@[j].0@ == k by {
                        let j = choose|j: int| 0 <= j < old_objects.len() && old_objects[j].0@ == k;
                        if j < i {
                            assert(self.objects@[j].0@ == k);
                        } else {
                            assert(j != i);
                            assert(self.objects@[j - 1].0@ == k);
                        }
                    }
                }
            },
            None => {
                proof {
                    self.contents@ = self.contents@.remove(id@);
                }
            },
        }
    }
}

impl Default for InMemoryObjectStore {
    /// An empty store, as [`InMemoryObjectStore::new`] gives.
    fn default() -> (store: Self)
        ensures
            store.wf(),
            store.contents() == Map::<Seq<u8>, Seq<u8>>::empty(),
    {
        InMemoryObjectStore::new()
    }
}

/// Store whose payload bytes live in a [`SegmentAllocator`]'s region; an
/// index maps each content hash to the `(offset, len)` where its bytes were
/// written. `put` of a payload already indexed writes nothing. `release`
/// drops the index entry only: the segment space is not reclaimed.
pub struct MmapObjectStore {
    segment: SegmentAllocator,
    index: Vec<(ObjectId, (usize, usize))>,
    located: Ghost<Map<Seq<u8>, (nat, nat)>>,
}

impl MmapObjectStore {
    /// The index and the map it stands for agree, no ID occurs twice, and
    /// every indexed range lies in the allocated part of the segment.
    pub closed spec fn wf(&self) -> bool {
        &&& self.segment.wf()
        &&& forall|i: int, j: int|
            0 <= i < j < self.index@.len() ==> self.index@[i].0@ != self.index@[j].0@
        &&& forall|i: int|
            0 <= i < self.index@.len() ==> {
                &&& #[trigger] self.located@.dom().contains(self.index@[i].0@)
                &&& self.located@[self.index@[i].0@] == (
                    self.index@[i].1.0 as nat,
                    self.index@[i].1.1 as nat,
                )
            }
        &&& forall|k: Seq<u8>|
            #[trigger] self.located@.dom().contains(k) ==> exists|i: int|
                0 <= i < self.index@.len() && self.index@[i].0@ == k
        &&& forall|k: Seq<u8>|
            #[trigger] self.located@.dom().contains(k) ==> self.located@[k].0 + self.located@[k].1
                <= self.segment.used()
    }

    /// The payload stored under each ID: the bytes of its indexed range.
    pub closed spec fn contents(&self) -> Map<Seq<u8>, Seq<u8>> {
        Map::new(
            |k: Seq<u8>| self.located@.dom().contains(k),
            |k: Seq<u8>|
                self.segment.bytes().subrange(
                    self.located@[k].0 as int,
                    (self.located@[k].0 + self.located@[k].1) as int,
                ),
        )
    }

    /// Bytes of the segment handed out so far.
    pub closed spec fn used(&self) -> nat {
        self.segment.used()
    }

    /// Size of the segment.
    pub closed spec fn capacity(&self) -> nat {
        self.segment.spec_capacity()
    }

    /// A store backed by a fresh segment over `region`.
    pub fn new(region: MmapMut) -> (store: Self)
        ensures
            store.wf(),
            store.contents() == Map::<Seq<u8>, Seq<u8>>::empty(),
            store.used() == 0,
            store.capacity() == crate::segment_allocator::region_bytes(region).len(),
    {
        let store = MmapObjectStore {
            segment: SegmentAllocator::new(region),
            index: Vec::new(),
            located: Ghost(Map::empty()),
        };
        assert(store.contents() =~= Map::<Seq<u8>, Seq<u8>>::empty());
        store
    }

    /// Insert a payload, returning its ID. A payload already in the index is
    /// not written again. Returns `None` if the segment has no room left.
    pub fn put(&mut self, payload: Vec<u8>) -> (id: Option<ObjectId>)
        requires
            old(self).wf(),
        ensures
            final(self).wf(),
            final(self).capacity() == old(self).capacity(),
            old(self).contents().dom().contains(content_id(payload@)) ==> {
                &&& id matches Some(id) && id@ == content_id(payload@)
                &&& final(self).contents() == old(self).contents()
                &&& final(self).used() == old(self).used()
            },
            !old(self).contents().dom().contains(content_id(payload@))
                && SegmentAllocator::fits(old(self).used(), payload@.len(), old(self).capacity()) ==> {
                &&& id matches Some(id) && id@ == content_id(payload@)
                &&& final(self).contents() == put_effect(old(self).contents(), payload@)
                &&& final(self).used() == old(self).used() + spec_page_align_up(payload@.len() as int)
            },
            !old(self).contents().dom().contains(content_id(payload@))
                && !SegmentAllocator::fits(old(self).used(), payload@.len(), old(self).capacity()) ==> {
                &&& id is None
                &&& final(self).contents() == old(self).contents()
                &&& final(self).used() == old(self).used()
            },
    {
        let id = ObjectId::of_payload(payload.as_slice());
        let ghost key = id@;
        if let Some(_) = position_of(&self.index, &id) {
            return Some(id);
        }
        assert(!self.located@.dom().contains(key));
        let len = payload.len();
        let offset = match self.segment.allocate(len) {
            Some(offset) => offset,
            None => {
                assert(self.contents() =~= old(self).contents());
                return None;
            },
        };
        let ghost old_bytes = self.segment.bytes();
        proof { self.segment.lemma_bounds(); }
        self.segment.write_at(offset, payload.as_slice());
        let ghost old_index = self.index@;
        self.index.push((id, (offset, len)));
        proof {
            self.located@ = self.located@.insert(key, (offset as nat, len as nat));
            let n = old_index.len() as int;
            assert forall|k: Seq<u8>| #[trigger] self.located@.dom().contains(k)
                implies exists|j: int| 0 <= j < self.index@.len() && self.index@[j].0@ == k by {
                if k != key {
                    let j = choose|j: int| 0 <= j < old_index.len() && old_index[j].0@ == k;
                    assert(self.index@[j].0@ == k);
                } else {
                    assert(self.index@[n].0@ == k);
                }
            }
            self.segment.lemma_bounds();
            let new_bytes = self.segment.bytes();
            assert(new_bytes =~= old_bytes.take(offset as int) + payload@ + old_bytes.skip(offset + len));
            assert forall|k: Seq<u8>| #[trigger] self.contents().dom().contains(k) implies
                self.contents()[k] == put_effect(old(self).contents(), payload@)[k] by {
                if k == key {
                    assert(new_bytes.subrange(offset as int, offset + len) =~= payload@);
                } else {
                    let (a, l) = self.located@[k];
                    assert(a + l <= offset);
                    assert(new_bytes.subrange(a as int, (a + l) as int) =~= old_bytes.subrange(a as int, (a + l) as int));
                }
            }
            assert(self.contents() =~= put_effect(old(self).contents(), payload@));
        }
        Some(id)
    }

    /// Look up a payload by ID. Returns `None` if no such object exists.
    pub fn get(&self, id: &ObjectId) -> (payload: Option<Vec<u8>>)
        requires
            self.wf(),
        ensures
            payload matches Some(p) ==> get_answer(self.contents(), id@) == Some(p@),
            payload is None ==> get_answer(self.contents(), id@) is None,
    {
        match position_of(&self.index, id) {
            Some(i) => {
                let (offset, len) = self.index[i].1;
                assert(self.located@.dom().contains(id@));
                proof { self.segment.lemma_bounds(); }
                Some(self.segment.read_at(offset, len))
            },
            None => {
                assert(!self.located@.dom().contains(id@));
                None
            },
        }
    }

    /// Drop a payload's index entry; its bytes stay where they are.
    pub fn release(&mut self, id: &ObjectId)
        requires
            old(self).wf(),
        ensures
            final(self).wf(),
            final(self).contents() == old(self).contents().remove(id@),
            final(self).used() == old(self).used(),
            final(self).capacity() == old(self).capacity(),
    {
        match position_of(&self.index, id) {
            Some(i) => {
                let ghost old_index = self.index@;
                self.index.remove(i);
                proof {
                    self.located@ = self.located@.remove(id@);
                    assert forall|j: int| 0 <= j < self.index@.len() implies
                        self.index@[j] == old_index[if j < i { j } else { j + 1 }] by {}
                    assert forall|k: Seq<u8>| #[trigger] self.located@.dom().contains(k)
                        implies exists|j: int| 0 <= j < self.index@.len() && self.index@[j].0@ == k by {
                        let j = choose|j: int| 0 <= j < old_index.len() && old_index[j].0@ == k;
                        if j < i {
                            assert(self.index@[j].0@ == k);
                        } else {
                            assert(j != i);
                            assert(self.index@[j - 1].0@ == k);
                        }
                    }
                }
            },
            None => {
                proof {
                    self.located@ = self.located@.remove(id@);
                }
            },
        }
        assert(self.contents() =~= old(self).contents().remove(id@));
    }
}

/// A payload that was put can be got back under its ID.
pub proof fn law_get_after_put(contents: Map<Seq<u8>, Seq<u8>>, payload: Seq<u8>)
    ensures
        get_answer(put_effect(contents, payload), content_id(payload)) == Some(payload),
{
}

/// Putting a payload leaves every other ID's answer as it was.
pub proof fn law_put_keeps_other_ids(contents: Map<Seq<u8>, Seq<u8>>, payload: Seq<u8>, other: Seq<u8>)
    requires
        other != content_id(payload),
    ensures
        get_answer(put_effect(contents, payload), other) == get_answer(contents, other),
{
}

/// After a release, the released ID is answered with `None`.
pub proof fn law_get_after_release(contents: Map<Seq<u8>, Seq<u8>>, id: Seq<u8>)
    ensures
        get_answer(contents.remove(id), id) is None,
{
}

/// Releasing one ID leaves every other ID's answer as it was.
pub proof fn law_release_keeps_other_ids(contents: Map<Seq<u8>, Seq<u8>>, id: Seq<u8>, other: Seq<u8>)
    requires
        other != id,
    ensures
        get_answer(contents.remove(id), other) == get_answer(contents, other),
{
}

/// Content addressing: identical payloads get identical IDs.
pub proof fn law_identical_payloads_identical_ids(first: Seq<u8>, second: Seq<u8>)
    requires
        first == second,
    ensures
        content_id(first) == content_id(second),
{
}

/// Putting the same payload twice leaves the store as putting it once.
pub proof fn law_put_is_idempotent(contents: Map<Seq<u8>, Seq<u8>>, payload: Seq<u8>)
    ensures
        put_effect(put_effect(contents, payload), payload) == put_effect(contents, payload),
{
    assert(put_effect(put_effect(contents, payload), payload) =~= put_effect(contents, payload));
}

/// An ID is the blake3 digest of the whole payload: payloads whose digests
/// differ get different IDs, and putting one after the other leaves each
/// answered, under its own digest, with its own bytes.
pub proof fn law_id_is_the_whole_payload_digest(
    contents: Map<Seq<u8>, Seq<u8>>,
    first: Seq<u8>,
    second: Seq<u8>,
)
    requires
        blake3_digest(first) != blake3_digest(second),
    ensures
        content_id(first) == blake3_digest(first),
        content_id(first) != content_id(second),
        get_answer(put_effect(put_effect(contents, first), second), blake3_digest(first)) == Some(first),
        get_answer(put_effect(put_effect(contents, first), second), blake3_digest(second)) == Some(second),
{
}

} // verus!
