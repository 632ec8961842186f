//! All open buffers, counted by the windows that show them.
use vstd::prelude::*;

use crate::buffer::{Buffer, BufferId};
use crate::text::same;

verus! {

/// A buffer and the number of windows that show it.
#[derive(Debug)]
pub struct Slot<D> {
    pub buf: Buffer<D>,
    /// The resolved path of a document, by which it is found again.
    pub key: Option<String>,
    pub refs: usize,
}

impl<D> Slot<D> {
    pub open spec fn id(self) -> BufferId {
        self.buf.spec_id()
    }

    /// The slot's path is that one.
    pub open spec fn is_at(self, key: Seq<char>) -> bool {
        self.key matches Some(k) && k@ == key
    }
}

/// All open buffers, in the order of their ids. Documents are kept once per
/// path; directory browsers are not shared.
#[derive(Debug)]
pub struct BufferPool<D> {
    pub slots: Vec<Slot<D>>,
}

/// Position of the buffer `id`.
pub open spec fn slot_at<D>(slots: Seq<Slot<D>>, id: BufferId) -> Option<int>
    decreases slots.len(),
{
    if slots.len() == 0 {
        None
    } else if slots[0].id() == id {
        Some(0)
    } else {
        match slot_at(slots.skip(1), id) {
            Some(i) => Some(i + 1),
            None => None,
        }
    }
}

/// `slot_at` finds the first buffer with the id, or that there is none.
pub proof fn lemma_slot_at<D>(slots: Seq<Slot<D>>, id: BufferId)
    ensures
        slot_at(slots, id) matches Some(i) ==> {
            &&& 0 <= i < slots.len()
            &&& slots[i].id() == id
            &&& forall|j: int| 0 <= j < i ==> (#[trigger] slots[j]).id() != id
        },
        slot_at(slots, id) is None ==> forall|j: int|
            0 <= j < slots.len() ==> (#[trigger] slots[j]).id() != id,
    decreases slots.len(),
{
    if slots.len() > 0 && slots[0].id() != id {
        let rest = slots.skip(1);
        lemma_slot_at(rest, id);
        assert forall|j: int| 1 <= j < slots.len() implies slots[j] == rest[j - 1] by {}
    }
}

/// Position of the document at a path.
pub open spec fn key_at<D>(slots: Seq<Slot<D>>, key: Seq<char>) -> Option<int>
    decreases slots.len(),
{
    if slots.len() == 0 {
        None
    } else if slots[0].is_at(key) {
        Some(0)
    } else {
        match key_at(slots.skip(1), key) {
            Some(i) => Some(i + 1),
            None => None,
        }
    }
}

/// `key_at` finds the first document at the path, or that there is none.
pub proof fn lemma_key_at<D>(slots: Seq<Slot<D>>, key: Seq<char>)
    ensures
        key_at(slots, key) matches Some(i) ==> {
            &&& 0 <= i < slots.len()
            &&& slots[i].is_at(key)
            &&& forall|j: int| 0 <= j < i ==> !(#[trigger] slots[j]).is_at(key)
        },
        key_at(slots, key) is None ==> forall|j: int|
            0 <= j < slots.len() ==> !(#[trigger] slots[j]).is_at(key),
    decreases slots.len(),
{
    if slots.len() > 0 && !slots[0].is_at(key) {
        let rest = slots.skip(1);
        lemma_key_at(rest, key);
        assert forall|j: int| 1 <= j < slots.len() implies slots[j] == rest[j - 1] by {}
    }
}

/// The pool after one more window shows `id`.
pub open spec fn acquired<D>(slots: Seq<Slot<D>>, id: BufferId) -> Seq<Slot<D>> {
    match slot_at(slots, id) {
        Some(i) => slots.update(i, Slot { refs: (slots[i].refs + 1) as usize, ..slots[i] }),
        None => slots,
    }
}

/// The pool after one window less shows `id`: the buffer goes with the last.
pub open spec fn released<D>(slots: Seq<Slot<D>>, id: BufferId) -> Seq<Slot<D>> {
    match slot_at(slots, id) {
        Some(i) => if slots[i].refs <= 1 {
            slots.remove(i)
        } else {
            slots.update(i, Slot { refs: (slots[i].refs - 1) as usize, ..slots[i] })
        },
        None => slots,
    }
}

/// The document that goes when one window less shows `id`.
pub open spec fn leaving<D>(slots: Seq<Slot<D>>, id: BufferId) -> Option<Buffer<D>> {
    match slot_at(slots, id) {
        Some(i) => if slots[i].refs <= 1 {
            Some(slots[i].buf)
        } else {
            None
        },
        None => None,
    }
}

impl<D> BufferPool<D> {
    pub fn new() -> (p: BufferPool<D>)
        ensures
            p.slots@.len() == 0,
    {
        BufferPool { slots: Vec::new() }
    }

    /// Position of the buffer `id`.
    pub fn find(&self, id: BufferId) -> (r: Option<usize>)
        ensures
            match slot_at(self.slots@, id) {
                Some(i) => r matches Some(k) && k == i && i < self.slots@.len(),
                None => r is None,
            },
    {
        proof {
            lemma_slot_at(self.slots@, id);
        }
        let n: usize = self.slots.len();
        let mut i: usize = 0;
        while i < n
            invariant
                i <= n == self.slots@.len(),
                forall|j: int| 0 <= j < i ==> (#[trigger] self.slots@[j]).id() != id,
            decreases n - i,
        {
            if self.slots[i].buf.id() == id {
                proof {
                    lemma_slot_at(self.slots@, id);
                    assert(self.slots@[i as int].id() == id);
                }
                return Some(i);
            }
            i += 1;
        }
        proof {
            lemma_slot_at(self.slots@, id);
        }
        None
    }

    /// Position of the document at a path.
    pub fn find_key(&self, key: &str) -> (r: Option<usize>)
        ensures
            match key_at(self.slots@, key@) {
                Some(i) => r matches Some(k) && k == i && i < self.slots@.len(),
                None => r is None,
            },
    {
        proof {
            lemma_key_at(self.slots@, key@);
        }
        let n: usize = self.slots.len();
        let mut i: usize = 0;
        while i < n
            invariant
                i <= n == self.slots@.len(),
                forall|j: int| 0 <= j < i ==> !(#[trigger] self.slots@[j]).is_at(key@),
            decreases n - i,
        {
            let hit: bool = match &self.slots[i].key {
                Some(k) => same(k.as_str(), key),
                None => false,
            };
            if hit {
                proof {
                    lemma_key_at(self.slots@, key@);
                    assert(self.slots@[i as int].is_at(key@));
                }
                return Some(i);
            }
            i += 1;
        }
        proof {
            lemma_key_at(self.slots@, key@);
        }
        None
    }

    /// One more window shows `id`.
    pub fn acquire(&mut self, id: BufferId)
        requires
            slot_at(old(self).slots@, id) matches Some(i) ==> old(self).slots@[i].refs < usize::MAX,
        ensures
            final(self).slots@ == acquired(old(self).slots@, id),
    {
        if let Some(i) = self.find(id) {
            let refs: usize = self.slots[i].refs;
            self.slots[i].refs = refs + 1;
        }
    }

    /// One window less shows `id`. Returns the buffer where that was the last.
    pub fn release(&mut self, id: BufferId) -> (gone: Option<Buffer<D>>)
        ensures
            final(self).slots@ == released(old(self).slots@, id),
            gone == leaving(old(self).slots@, id),
    {
        match self.find(id) {
            None => None,
            Some(i) => {
                let refs: usize = self.slots[i].refs;
                if refs <= 1 {
                    let slot: Slot<D> = self.slots.remove(i);
                    Some(slot.buf)
                } else {
                    self.slots[i].refs = refs - 1;
                    None
                }
            },
        }
    }

    pub fn get(&self, id: BufferId) -> (r: Option<&Buffer<D>>)
        ensures
            match slot_at(self.slots@, id) {
                Some(i) => r == Some(&self.slots@[i].buf),
                None => r is None,
            },
    {
        match self.find(id) {
            Some(i) => Some(&self.slots[i].buf),
            None => None,
        }
    }

    pub fn get_mut(&mut self, id: BufferId) -> (r: Option<&mut Buffer<D>>)
        ensures
            match slot_at(old(self).slots@, id) {
                Some(i) => {
                    &&& r matches Some(b)
                    &&& *b == old(self).slots@[i].buf
                    &&& final(self).slots@ == old(self).slots@.update(
                        i,
                        Slot { buf: *final(b), ..old(self).slots@[i] },
                    )
                },
                None => r is None && *final(self) == *old(self),
            },
    {
        match self.find(id) {
            Some(i) => Some(&mut self.slots[i].buf),
            None => None,
        }
    }

    /// The ids of all documents, in order.
    pub fn pdf_ids(&self) -> (ids: Vec<BufferId>)
        ensures
            ids@ == document_ids(self.slots@),
    {
        let mut ids: Vec<BufferId> = Vec::new();
        let mut i: usize = 0;
        assert(self.slots@.take(0).len() == 0);
        while i < self.slots.len()
            invariant
                i <= self.slots@.len(),
                ids@ == document_ids(self.slots@.take(i as int)),
            decreases self.slots@.len() - i,
        {
            let ghost t = self.slots@.take(i + 1);
            assert(t.drop_last() == self.slots@.take(i as int));
            assert(t.last() == self.slots@[i as int]);
            if !self.slots[i].buf.is_explorer() {
                ids.push(self.slots[i].buf.id());
            }
            i += 1;
        }
        assert(self.slots@.take(i as int) == self.slots@);
        ids
    }
}

/// The ids of all documents, in order.
pub open spec fn document_ids<D>(slots: Seq<Slot<D>>) -> Seq<BufferId>
    decreases slots.len(),
{
    if slots.len() == 0 {
        Seq::empty()
    } else if slots.last().buf is Pdf {
        document_ids(slots.drop_last()).push(slots.last().id())
    } else {
        document_ids(slots.drop_last())
    }
}

} // verus!
