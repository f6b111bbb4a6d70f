//! Prefix iterators over a snapshot of storage, held in a registry that
//! hands out numeric handles.
use vstd::prelude::*;
use crate::key::Key;

verus! {

/// An iterator over the (key, value) pairs that storage held under a prefix
/// when the iterator was created (the first `stored` items), followed by the
/// keys under the prefix that only the write log held then.
#[derive(Debug)]
pub struct PrefixIterator {
    pub items: Vec<(Key, Vec<u8>)>,
    pub stored: usize,
    pub pos: usize,
}

/// The items of an iterator as (key, value) views.
pub open spec fn items_view(s: Seq<(Key, Vec<u8>)>) -> Seq<(Seq<Seq<u8>>, Seq<u8>)> {
    s.map_values(|e: (Key, Vec<u8>)| (e.0@, e.1@))
}

/// The registry of live iterators; the handle of an iterator is its index.
#[derive(Debug)]
pub struct PrefixIterators {
    pub iters: Vec<PrefixIterator>,
}

impl PrefixIterators {
    pub open spec fn wf(&self) -> bool {
        forall|i: int| 0 <= i < self.iters@.len() ==> (#[trigger] self.iters@[i]).pos <= self.iters@[i].items@.len()
            && self.iters@[i].stored <= self.iters@[i].items@.len()
    }

    /// An empty registry.
    pub fn new() -> (r: PrefixIterators)
        ensures
            r.iters@.len() == 0,
            r.wf(),
    {
        PrefixIterators { iters: Vec::new() }
    }

    /// Register an iterator over `items`; returns its handle.
    pub fn insert(&mut self, items: Vec<(Key, Vec<u8>)>, stored: usize) -> (r: u64)
        requires
            old(self).wf(),
            old(self).iters@.len() < u64::MAX,
            stored <= items@.len(),
        ensures
            final(self).wf(),
            r == old(self).iters@.len(),
            final(self).iters@.len() == old(self).iters@.len() + 1,
            forall|i: int| 0 <= i < old(self).iters@.len() ==> final(self).iters@[i] == old(self).iters@[i],
            final(self).iters@[r as int].items@ == items@,
            final(self).iters@[r as int].pos == 0,
            final(self).iters@[r as int].stored == stored,
    {
        let id = self.iters.len() as u64;
        self.iters.push(PrefixIterator { items, stored, pos: 0 });
        id
    }

    /// Whether `id` names a live iterator.
    pub open spec fn has(&self, id: u64) -> bool {
        id < self.iters@.len()
    }

    /// The item that `next` on `id` gives, if any.
    pub open spec fn peek(&self, id: u64) -> Option<(Seq<Seq<u8>>, Seq<u8>)> {
        if self.has(id) && self.iters@[id as int].pos < self.iters@[id as int].items@.len() {
            Some(items_view(self.iters@[id as int].items@)[self.iters@[id as int].pos as int])
        } else {
            None
        }
    }

    /// The item that `next_stored` on `id` gives, if any.
    pub open spec fn peek_stored(&self, id: u64) -> Option<(Seq<Seq<u8>>, Seq<u8>)> {
        if self.has(id) && self.iters@[id as int].pos < self.iters@[id as int].stored {
            Some(items_view(self.iters@[id as int].items@)[self.iters@[id as int].pos as int])
        } else {
            None
        }
    }

    /// Take the next item of iterator `id` among those that storage held;
    /// nothing once they are exhausted or where `id` names no iterator.
    pub fn next_stored(&mut self, id: u64) -> (r: Option<(Key, Vec<u8>)>)
        requires
            old(self).wf(),
        ensures
            final(self).wf(),
            r matches Some(e) ==> old(self).peek_stored(id) == Some((e.0@, e.1@)),
            r is None ==> old(self).peek_stored(id) is None,
            final(self).iters@.len() == old(self).iters@.len(),
    {
        if id >= self.iters.len() as u64 {
            return None;
        }
        let i = id as usize;
        if self.iters[i].pos >= self.iters[i].stored {
            return None;
        }
        self.next(id)
    }

    /// Take the next item of iterator `id`; nothing once it is exhausted or
    /// where `id` names no iterator.
    pub fn next(&mut self, id: u64) -> (r: Option<(Key, Vec<u8>)>)
        requires
            old(self).wf(),
        ensures
            final(self).wf(),
            r matches Some(e) ==> old(self).peek(id) == Some((e.0@, e.1@)),
            r is None ==> old(self).peek(id) is None,
            final(self).iters@.len() == old(self).iters@.len(),
            forall|i: int| 0 <= i < old(self).iters@.len() && i != id ==> final(self).iters@[i] == old(self).iters@[i],
            old(self).has(id) ==> final(self).iters@[id as int].items == old(self).iters@[id as int].items,
            old(self).has(id) ==> final(self).iters@[id as int].stored == old(self).iters@[id as int].stored,
            old(self).has(id) ==> final(self).iters@[id as int].pos == if r is Some {
                old(self).iters@[id as int].pos + 1
            } else {
                old(self).iters@[id as int].pos as int
            },
    {
        if id >= self.iters.len() as u64 {
            return None;
        }
        let i = id as usize;
        let pos = self.iters[i].pos;
        if pos >= self.iters[i].items.len() {
            return None;
        }
        let k = self.iters[i].items[pos].0.copy();
        let v = crate::codec::copy_bytes(self.iters[i].items[pos].1.as_slice());
        let mut it = self.iters.remove(i);
        it.pos = pos + 1;
        self.iters.insert(i, it);
        proof {
            assert forall|j: int| 0 <= j < self.iters@.len() implies (#[trigger] self.iters@[j]).pos <= self.iters@[j].items@.len() by {
                if j != i {
                    assert(self.iters@[j] == old(self).iters@[j]);
                }
            }
        }
        Some((k, v))
    }
}

} // verus!
