//! Accepting connections: each gets a fresh session id, an active session
//! and an entry in the registry.

use vstd::prelude::*;
use crate::registry::{add_id, Registry};
use crate::session::{is_hyphenated_v4, User};

verus! {

/// Hands out session ids, counting up from zero.
pub struct Listener {
    next_id: u64,
}

impl Listener {
    /// The id the next accepted connection gets.
    pub closed spec fn next_id(&self) -> u64 {
        self.next_id
    }

    /// A listener whose first session gets id zero.
    pub fn new() -> (r: Listener)
        ensures
            r.next_id() == 0,
    {
        Listener { next_id: 0 }
    }

    /// Takes in a connection from `address` whose write side is `handle`:
    /// makes its session and registers it. Gives `None`, changing nothing,
    /// once every id has been handed out.
    pub fn accept<H>(&mut self, registry: &mut Registry<H>, address: String, handle: H) -> (r:
        Option<User>)
        requires
            old(registry).wf(),
        ensures
            final(registry).wf(),
            old(self).next_id() == u64::MAX ==> r is None && final(self).next_id()
                == old(self).next_id() && final(registry)@ == old(registry)@
                && final(registry).handles() == old(registry).handles(),
            old(self).next_id() < u64::MAX ==> {
                &&& r is Some
                &&& r->0@.id == old(self).next_id()
                &&& r->0@.address == address@
                &&& r->0@.nick is None
                &&& r->0@.active
                &&& is_hyphenated_v4(r->0@.member_id)
                &&& final(self).next_id() == old(self).next_id() + 1
                &&& final(registry)@ == add_id(old(registry)@, old(self).next_id())
                &&& !old(registry)@.contains(old(self).next_id()) ==> final(registry).handles()
                    == old(registry).handles().push(handle)
            },
            (forall|x: u64| #[trigger] old(registry)@.contains(x) ==> x < old(self).next_id()) ==> (
            forall|x: u64| #[trigger] final(registry)@.contains(x) ==> x < final(self).next_id()),
    {
        if self.next_id == u64::MAX {
            return None;
        }
        let id = self.next_id;
        self.next_id = id + 1;
        let ghost before = registry@;
        registry.add(id, handle);
        assert forall|x: u64|
            (forall|y: u64| #[trigger] before.contains(y) ==> y < id) && #[trigger] registry@.contains(
                x,
            ) implies x < self.next_id by {
            assert(!before.contains(id));
            assert(registry@ == before.push(id));
            if x != id {
                let k = choose|k: int| 0 <= k < registry@.len() && registry@[k] == x;
                assert(k < before.len());
                assert(before[k] == x);
                assert(before.contains(x));
            }
        }
        Some(User::from(id, address))
    }
}

} // verus!
