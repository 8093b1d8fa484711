//! The session table: every live session of one side of a tunnel, found by
//! its identifier in constant time.
//!
//! Sessions stand in a dense row of slots, and a hash map leads from each
//! identifier to its slot. A session that leaves gives its slot to the last
//! one in the row, so the row has no holes and can be walked in order, which
//! is what scheduling and teardown need.

use vstd::prelude::*;
use std::collections::HashMap;
use crate::session::{Session, SessionView};

verus! {

broadcast use vstd::std_specs::hash::group_hash_axioms;

/// Whether one of `sessions` has the identifier `id`.
pub open spec fn has_id(sessions: Seq<SessionView>, id: u64) -> bool {
    exists|i: int| 0 <= i < sessions.len() && (#[trigger] sessions[i]).id == id
}

/// The slot of the session with the identifier `id`, where there is one.
pub open spec fn position(sessions: Seq<SessionView>, id: u64) -> int {
    choose|i: int| 0 <= i < sessions.len() && (#[trigger] sessions[i]).id == id
}

/// No two of `sessions` share an identifier.
pub open spec fn distinct_ids(sessions: Seq<SessionView>) -> bool {
    forall|i: int, j: int|
        0 <= i < j < sessions.len() ==> (#[trigger] sessions[i]).id != (#[trigger] sessions[j]).id
}

/// The row after the session in slot `i` left: the last session takes its
/// slot.
pub open spec fn swap_removed(sessions: Seq<SessionView>, i: int) -> Seq<SessionView>
    recommends
        0 <= i < sessions.len(),
{
    sessions.update(i, sessions.last()).drop_last()
}

/// The identifiers of `sessions`, slot by slot.
pub open spec fn ids_of(sessions: Seq<SessionView>) -> Seq<u64> {
    Seq::new(sessions.len(), |i: int| sessions[i].id)
}

/// With distinct identifiers, the slot that holds `id` is its position.
pub proof fn lemma_position(sessions: Seq<SessionView>, i: int)
    requires
        distinct_ids(sessions),
        0 <= i < sessions.len(),
    ensures
        has_id(sessions, sessions[i].id),
        position(sessions, sessions[i].id) == i,
{
    let id = sessions[i].id;
    let j = position(sessions, id);
    assert(0 <= j < sessions.len() && sessions[j].id == id);
    if j < i {
        assert(sessions[j].id != sessions[i].id);
    } else if i < j {
        assert(sessions[i].id != sessions[j].id);
    }
}

/// A row with distinct identifiers keeps them distinct when a session
/// leaves, and the one that left is no longer found.
pub proof fn lemma_swap_removed(sessions: Seq<SessionView>, i: int)
    requires
        distinct_ids(sessions),
        0 <= i < sessions.len(),
    ensures
        distinct_ids(swap_removed(sessions, i)),
        !has_id(swap_removed(sessions, i), sessions[i].id),
        forall|id: u64|
            id != sessions[i].id ==> (has_id(swap_removed(sessions, i), id) <==> has_id(
                sessions,
                id,
            )),
{
    let after = swap_removed(sessions, i);
    let last = sessions.len() - 1;
    assert forall|a: int, b: int| 0 <= a < b < after.len() implies (#[trigger] after[a]).id != (
    #[trigger] after[b]).id by {
        let sa = if a == i {
            last
        } else {
            a
        };
        let sb = if b == i {
            last
        } else {
            b
        };
        assert(after[a] == sessions[sa]);
        assert(after[b] == sessions[sb]);
        if sa < sb {
            assert(sessions[sa].id != sessions[sb].id);
        } else {
            assert(sessions[sb].id != sessions[sa].id);
        }
    }
    if has_id(after, sessions[i].id) {
        let a = position(after, sessions[i].id);
        let sa = if a == i {
            last
        } else {
            a
        };
        assert(after[a] == sessions[sa]);
        if sa < i {
            assert(sessions[sa].id != sessions[i].id);
        } else {
            assert(sessions[i].id != sessions[sa].id);
        }
    }
    assert forall|id: u64| id != sessions[i].id implies (has_id(after, id) <==> has_id(
        sessions,
        id,
    )) by {
        if has_id(after, id) {
            let a = position(after, id);
            let sa = if a == i {
                last
            } else {
                a
            };
            assert(sessions[sa].id == id);
        }
        if has_id(sessions, id) {
            let s = position(sessions, id);
            let a = if s == last {
                i
            } else {
                s
            };
            assert(after[a].id == id);
        }
    }
}

/// The live sessions of one side of a tunnel.
pub struct SessionTable {
    slots: Vec<Session>,
    index: HashMap<u64, usize>,
}

impl SessionTable {
    /// The sessions, slot by slot.
    pub closed spec fn view(&self) -> Seq<SessionView> {
        Seq::new(self.slots@.len(), |i: int| self.slots@[i]@)
    }

    /// The map agrees with the row: it leads from the identifier of every
    /// session to its slot and holds nothing else.
    pub closed spec fn wf(&self) -> bool {
        &&& forall|i: int|
            0 <= i < self.slots@.len() ==> self.index@.contains_key(
                (#[trigger] self.slots@[i]).id,
            ) && self.index@[self.slots@[i].id] == i
        &&& forall|k: u64| #[trigger]
            self.index@.contains_key(k) ==> self.index@[k] < self.slots@.len()
                && self.slots@[self.index@[k] as int].id == k
    }

    /// In a well-formed table no two sessions share an identifier.
    pub proof fn lemma_distinct(&self)
        requires
            self.wf(),
        ensures
            distinct_ids(self@),
    {
    }

    /// An empty table.
    pub fn new() -> (t: SessionTable)
        ensures
            t.wf(),
            t@ == Seq::<SessionView>::empty(),
    {
        SessionTable { slots: Vec::new(), index: HashMap::new() }
    }

    /// The number of sessions.
    pub fn len(&self) -> (n: usize)
        ensures
            n == self@.len(),
    {
        self.slots.len()
    }

    /// The slot of the session with the identifier `id`, if it is here.
    pub fn find(&self, id: u64) -> (r: Option<usize>)
        requires
            self.wf(),
        ensures
            r is Some <==> has_id(self@, id),
            r matches Some(i) ==> i < self@.len() && self@[i as int].id == id && i == position(
                self@,
                id,
            ),
    {
        let r: Option<usize> = match self.index.get(&id) {
            Some(i) => Some(*i),
            None => None,
        };
        proof {
            self.lemma_distinct();
            if let Some(i) = r {
                lemma_position(self@, i as int);
            }
        }
        r
    }

    /// The session in slot `i`.
    pub fn get(&self, i: usize) -> (s: &Session)
        requires
            i < self@.len(),
        ensures
            s@ == self@[i as int],
    {
        &self.slots[i]
    }

    /// The session in slot `i`, to be changed in place. The table stays well
    /// formed as long as the session keeps its identifier.
    pub fn slot_mut(&mut self, i: usize) -> (s: &mut Session)
        requires
            old(self).wf(),
            i < old(self)@.len(),
        ensures
            s@ == old(self)@[i as int],
            final(self)@ == old(self)@.update(i as int, final(s)@),
            final(s).id == old(self)@[i as int].id ==> final(self).wf(),
    {
        let s = &mut self.slots[i];
        s
    }

    /// Adds a session whose identifier is not in the table yet; it takes
    /// the slot after the last.
    pub fn insert(&mut self, s: Session)
        requires
            old(self).wf(),
            !has_id(old(self)@, s.id),
        ensures
            final(self).wf(),
            final(self)@ == old(self)@.push(s@),
    {
        let id: u64 = s.id;
        let at: usize = self.slots.len();
        proof {
            if self.index@.contains_key(id) {
                assert(self@[self.index@[id] as int].id == id);
            }
        }
        self.slots.push(s);
        self.index.insert(id, at);
    }

    /// Takes the session in slot `i` out of the table; the last session of
    /// the row moves into its slot.
    pub fn remove_at(&mut self, i: usize) -> (s: Session)
        requires
            old(self).wf(),
            i < old(self)@.len(),
        ensures
            final(self).wf(),
            s@ == old(self)@[i as int],
            final(self)@ == swap_removed(old(self)@, i as int),
    {
        proof {
            self.lemma_distinct();
        }
        let last: usize = self.slots.len() - 1;
        let s = self.slots.swap_remove(i);
        self.index.remove(&s.id);
        if i < last {
            let moved: u64 = self.slots[i].id;
            self.index.insert(moved, i);
        }
        s
    }

    /// Empties the table and returns the identifiers of the sessions that
    /// were in it, slot by slot.
    pub fn take_all(&mut self) -> (ids: Vec<u64>)
        requires
            old(self).wf(),
        ensures
            final(self).wf(),
            final(self)@ == Seq::<SessionView>::empty(),
            ids@ == ids_of(old(self)@),
    {
        let mut ids: Vec<u64> = Vec::new();
        let mut i: usize = 0;
        while i < self.slots.len()
            invariant
                i <= self.slots@.len(),
                *self == *old(self),
                ids@ == ids_of(self@).take(i as int),
            decreases self.slots@.len() - i,
        {
            ids.push(self.slots[i].id);
            i += 1;
        }
        self.slots.clear();
        self.index.clear();
        ids
    }
}

} // verus!
