//! The live capture sessions, by the number handed to the caller.

use std::collections::HashMap;
use vstd::prelude::*;

verus! {

broadcast use vstd::std_specs::hash::group_hash_axioms;

/// Sessions run side by side, one per number. Numbers begin at one, so that zero can mean "none".
pub struct Sessions<T> {
    live: HashMap<u32, T>,
    next: u32,
}

impl<T> Sessions<T> {
    pub closed spec fn view(self) -> Map<u32, T> {
        self.live@
    }

    /// The number of the next session.
    pub closed spec fn next_id(self) -> u32 {
        self.next
    }

    /// The numbers have not begun again: each live one is below the next, and none is zero.
    pub open spec fn fresh(self) -> bool {
        self.next_id() > 0 && forall|id: u32| #[trigger] self@.contains_key(id) ==> 0 < id < self.next_id()
    }

    pub fn new() -> (r: Sessions<T>)
        ensures
            r@ == Map::<u32, T>::empty(),
            r.next_id() == 1,
            r.fresh(),
    {
        Sessions { live: HashMap::new(), next: 1 }
    }

    /// Registers a session under the next number. Behind the last number they begin again at zero.
    pub fn insert(&mut self, session: T) -> (id: u32)
        ensures
            id == old(self).next_id(),
            final(self)@ == old(self)@.insert(id, session),
            final(self).next_id() == if id == u32::MAX { 0 } else { id + 1 },
            old(self).fresh() ==> id != 0 && !old(self)@.contains_key(id),
            old(self).fresh() && id < u32::MAX ==> final(self).fresh(),
    {
        let id: u32 = self.next;
        self.next = if id == u32::MAX {
            0
        } else {
            id + 1
        };
        self.live.insert(id, session);
        id
    }

    /// Takes a session out. An unknown number is nothing to do.
    pub fn remove(&mut self, id: u32) -> (r: Option<T>)
        ensures
            final(self)@ == old(self)@.remove(id),
            final(self).next_id() == old(self).next_id(),
            old(self).fresh() ==> final(self).fresh(),
            r == (if old(self)@.contains_key(id) {
                Some(old(self)@[id])
            } else {
                None
            }),
    {
        self.live.remove(&id)
    }

    pub fn get(&self, id: u32) -> (r: Option<&T>)
        ensures
            match r {
                Some(s) => self@.contains_key(id) && *s == self@[id],
                None => !self@.contains_key(id),
            },
    {
        self.live.get(&id)
    }

    /// Takes all sessions out.
    pub fn drain(&mut self) -> (r: HashMap<u32, T>)
        ensures
            r@ == old(self)@,
            final(self)@ == Map::<u32, T>::empty(),
            final(self).next_id() == old(self).next_id(),
            old(self).fresh() ==> final(self).fresh(),
    {
        let mut all: HashMap<u32, T> = HashMap::new();
        std::mem::swap(&mut all, &mut self.live);
        all
    }
}

} // verus!
