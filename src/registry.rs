//! The sessions that receive broadcasts, each at most once, keyed by
//! session id and holding the handle the broadcaster writes to.

use vstd::prelude::*;

verus! {

/// `ids` with `id` appended, unless it is there already.
pub open spec fn add_id(ids: Seq<u64>, id: u64) -> Seq<u64> {
    if ids.contains(id) {
        ids
    } else {
        ids.push(id)
    }
}

/// `ids` without their first `id`, if there is one.
pub open spec fn remove_id(ids: Seq<u64>, id: u64) -> Seq<u64> {
    ids.remove_value(id)
}

/// The items whose write went through, in order: `ok[i]` says how the
/// write to `items[i]` went.
pub open spec fn survivors<A>(items: Seq<A>, ok: Seq<bool>) -> Seq<A>
    decreases items.len(),
{
    if items.len() == 0 || ok.len() == 0 {
        Seq::empty()
    } else {
        let rest = survivors(items.drop_first(), ok.drop_first());
        if ok[0] {
            seq![items[0]] + rest
        } else {
            rest
        }
    }
}

proof fn lemma_survivors_map<A, B>(items: Seq<A>, ok: Seq<bool>, f: spec_fn(A) -> B)
    ensures
        survivors(items, ok).map_values(f) == survivors(items.map_values(f), ok),
    decreases items.len(),
{
    if items.len() > 0 && ok.len() > 0 {
        lemma_survivors_map(items.drop_first(), ok, f);
        lemma_survivors_map(items.drop_first(), ok.drop_first(), f);
        assert(items.map_values(f).drop_first() =~= items.drop_first().map_values(f));
        let rest = survivors(items.drop_first(), ok.drop_first());
        if ok[0] {
            assert((seq![items[0]] + rest).map_values(f) =~= seq![f(items[0])] + rest.map_values(f));
        }
    } else {
        assert(survivors(items, ok).map_values(f) =~= Seq::<B>::empty());
    }
}

/// The sessions eligible for broadcasts, in the order they were added,
/// each with the handle its lines are written to.
pub struct Registry<H> {
    entries: Vec<(u64, H)>,
}

/// The id of an entry.
pub open spec fn entry_id<H>() -> spec_fn((u64, H)) -> u64 {
    |e: (u64, H)| e.0
}

/// The handle of an entry.
pub open spec fn entry_handle<H>() -> spec_fn((u64, H)) -> H {
    |e: (u64, H)| e.1
}

impl<H> View for Registry<H> {
    type V = Seq<u64>;

    /// The registered ids, in order.
    closed spec fn view(&self) -> Seq<u64> {
        self.entries@.map_values(entry_id())
    }
}

proof fn lemma_remove_keeps_unique(s: Seq<u64>, i: int)
    requires
        s.no_duplicates(),
        0 <= i < s.len(),
    ensures
        s.remove(i).no_duplicates(),
        forall|x: u64| #[trigger] s.remove(i).contains(x) <==> (s.contains(x) && x != s[i]),
{
    s.remove_ensures(i);
    let r = s.remove(i);
    assert forall|x: u64| #[trigger] r.contains(x) <==> (s.contains(x) && x != s[i]) by {
        if r.contains(x) {
            let k = choose|k: int| 0 <= k < r.len() && r[k] == x;
            if k < i {
                assert(s[k] == x);
            } else {
                assert(s[k + 1] == x);
            }
        }
        if s.contains(x) && x != s[i] {
            let k = choose|k: int| 0 <= k < s.len() && s[k] == x;
            if k < i {
                assert(r[k] == x);
            } else {
                assert(r[k - 1] == x);
            }
        }
    }
}

proof fn lemma_survivors(ids: Seq<u64>, ok: Seq<bool>)
    requires
        ids.no_duplicates(),
    ensures
        survivors(ids, ok).no_duplicates(),
        forall|x: u64| #[trigger] survivors(ids, ok).contains(x) ==> ids.contains(x),
    decreases ids.len(),
{
    if ids.len() > 0 && ok.len() > 0 {
        let tail = ids.drop_first();
        assert(tail.no_duplicates());
        lemma_survivors(tail, ok.drop_first());
        let rest = survivors(tail, ok.drop_first());
        assert forall|x: u64| #[trigger] survivors(ids, ok).contains(x) implies ids.contains(x) by {
            if rest.contains(x) {
                let k = choose|k: int| 0 <= k < tail.len() && tail[k] == x;
                assert(ids[k + 1] == x);
            } else {
                assert(survivors(ids, ok)[0] == x || rest.contains(x)) by {
                    if ok[0] {
                        let k = choose|k: int|
                            0 <= k < survivors(ids, ok).len() && survivors(ids, ok)[k] == x;
                        if k > 0 {
                            assert(rest[k - 1] == x);
                        }
                    }
                }
                assert(ids[0] == x);
            }
        }
        if ok[0] {
            assert(!rest.contains(ids[0])) by {
                if rest.contains(ids[0]) {
                    let k = choose|k: int| 0 <= k < tail.len() && tail[k] == ids[0];
                    assert(ids[k + 1] == ids[0]);
                }
            }
            let all = seq![ids[0]] + rest;
            assert forall|a: int, b: int|
                0 <= a < all.len() && 0 <= b < all.len() && a != b implies all[a] != all[b] by {
                if a == 0 && b > 0 {
                    assert(rest[b - 1] == all[b]);
                } else if b == 0 && a > 0 {
                    assert(rest[a - 1] == all[a]);
                }
            }
        }
    }
}

impl<H> Registry<H> {
    /// The handles, in the order of their ids.
    pub closed spec fn handles(&self) -> Seq<H> {
        self.entries@.map_values(entry_handle())
    }

    /// Every session appears at most once, each with one handle.
    pub open spec fn wf(&self) -> bool {
        &&& self@.no_duplicates()
        &&& self.handles().len() == self@.len()
    }

    /// An empty registry.
    pub fn new() -> (r: Registry<H>)
        ensures
            r.wf(),
            r@ == Seq::<u64>::empty(),
            r.handles() == Seq::<H>::empty(),
    {
        let r = Registry { entries: Vec::new() };
        assert(r@ =~= Seq::<u64>::empty());
        assert(r.handles() =~= Seq::<H>::empty());
        r
    }

    /// How many sessions are registered.
    pub fn len(&self) -> (r: usize)
        ensures
            r == self@.len(),
    {
        self.entries.len()
    }

    /// The position of `id`, if it is registered.
    fn find(&self, id: u64) -> (r: Option<usize>)
        ensures
            r is None ==> !self@.contains(id),
            r is Some ==> r->0 < self@.len() && self@[r->0 as int] == id && forall|j: int|
                0 <= j < r->0 ==> self@[j] != id,
    {
        let mut i: usize = 0;
        while i < self.entries.len()
            invariant
                i <= self@.len(),
                self@.len() == self.entries@.len(),
                forall|j: int| 0 <= j < i ==> self@[j] != id,
            decreases self@.len() - i,
        {
            if self.entries[i].0 == id {
                return Some(i);
            }
            i = i + 1;
        }
        None
    }

    /// Whether `id` is registered.
    pub fn contains(&self, id: u64) -> (r: bool)
        ensures
            r == self@.contains(id),
    {
        self.find(id).is_some()
    }

    /// The id registered at position `i`.
    pub fn id_at(&self, i: usize) -> (r: u64)
        requires
            i < self@.len(),
        ensures
            r == self@[i as int],
    {
        self.entries[i].0
    }

    /// The handle registered at position `i`.
    pub fn handle_at(&self, i: usize) -> (r: &H)
        requires
            i < self@.len(),
        ensures
            *r == self.handles()[i as int],
    {
        &self.entries[i].1
    }

    /// Registers `id` with its handle, unless it is registered already;
    /// says whether it was added.
    pub fn add(&mut self, id: u64, handle: H) -> (r: bool)
        requires
            old(self).wf(),
        ensures
            final(self).wf(),
            final(self)@ == add_id(old(self)@, id),
            r == !old(self)@.contains(id),
            r ==> final(self).handles() == old(self).handles().push(handle),
            !r ==> final(self).handles() == old(self).handles(),
    {
        if self.contains(id) {
            return false;
        }
        let ghost before = self@;
        let ghost before_handles = self.handles();
        self.entries.push((id, handle));
        assert(self@ =~= before.push(id));
        assert(self.handles() =~= before_handles.push(handle));
        assert(self@.no_duplicates()) by {
            assert forall|a: int, b: int|
                0 <= a < self@.len() && 0 <= b < self@.len() && a != b implies self@[a]
                != self@[b] by {
                if a == before.len() as int {
                    assert(before[b] == self@[b]);
                } else if b == before.len() as int {
                    assert(before[a] == self@[a]);
                }
            }
        }
        true
    }

    /// Removes `id`'s entry, if there is one; says whether there was.
    pub fn remove(&mut self, id: u64) -> (r: bool)
        requires
            old(self).wf(),
        ensures
            final(self).wf(),
            final(self)@ == remove_id(old(self)@, id),
            r == old(self)@.contains(id),
            r ==> final(self).handles() == old(self).handles().remove(
                old(self)@.index_of_first(id)->0,
            ),
            !r ==> final(self).handles() == old(self).handles(),
    {
        let ghost before = self@;
        let ghost before_handles = self.handles();
        proof {
            before.index_of_first_ensures(id);
        }
        match self.find(id) {
            None => false,
            Some(i) => {
                proof {
                    let f = before.index_of_first(id)->0;
                    if f < i {
                        assert(before[f] != id);
                    }
                    if f > i {
                        assert(before[i as int] == id);
                    }
                }
                self.entries.remove(i);
                assert(self@ =~= before.remove(i as int));
                assert(self.handles() =~= before_handles.remove(i as int));
                proof {
                    lemma_remove_keeps_unique(before, i as int);
                }
                true
            },
        }
    }

    /// Drops, after a broadcast round, each entry whose write failed:
    /// `delivered[i]` says how the write to position `i` went.
    pub fn prune(&mut self, delivered: &Vec<bool>)
        requires
            old(self).wf(),
            delivered@.len() == old(self)@.len(),
        ensures
            final(self).wf(),
            final(self)@ == survivors(old(self)@, delivered@),
            final(self).handles() == survivors(old(self).handles(), delivered@),
    {
        let ghost all = self.entries@;
        let ghost ok = delivered@;
        let mut i: usize = self.entries.len();
        assert(all.subrange(0, i as int) + survivors(
            all.subrange(i as int, all.len() as int),
            ok.subrange(i as int, ok.len() as int),
        ) =~= all);
        while i > 0
            invariant
                i <= all.len(),
                ok.len() == all.len(),
                ok == delivered@,
                self.entries@ == all.subrange(0, i as int) + survivors(
                    all.subrange(i as int, all.len() as int),
                    ok.subrange(i as int, ok.len() as int),
                ),
            decreases i,
        {
            let ghost ids_from = all.subrange(i - 1, all.len() as int);
            let ghost ok_from = ok.subrange(i - 1, ok.len() as int);
            assert(ids_from.drop_first() =~= all.subrange(i as int, all.len() as int));
            assert(ok_from.drop_first() =~= ok.subrange(i as int, ok.len() as int));
            let ghost before = self.entries@;
            if !delivered[i - 1] {
                self.entries.remove(i - 1);
                assert(self.entries@ =~= all.subrange(0, i - 1) + survivors(ids_from, ok_from));
            } else {
                assert(before =~= all.subrange(0, i - 1) + survivors(ids_from, ok_from));
            }
            i = i - 1;
        }
        assert(all.subrange(0, all.len() as int) =~= all);
        assert(ok.subrange(0, ok.len() as int) =~= ok);
        proof {
            lemma_survivors_map(all, ok, entry_id());
            lemma_survivors_map(all, ok, entry_handle());
            lemma_survivors(all.map_values(entry_id()), ok);
            assert(survivors(all, ok).len() == self.entries@.len());
        }
    }

    /// One broadcast round: hands each registered handle, in order, to
    /// `write`, then drops the entries whose write failed. Returns how each
    /// write went.
    pub fn fan_out<F: Fn(&H) -> bool>(&mut self, write: F) -> (delivered: Vec<bool>)
        requires
            old(self).wf(),
            forall|h: &H| #[trigger] write.requires((h,)),
        ensures
            final(self).wf(),
            delivered@.len() == old(self)@.len(),
            forall|i: int|
                0 <= i < delivered@.len() ==> write.ensures(
                    (&old(self).handles()[i],),
                    #[trigger] delivered@[i],
                ),
            final(self)@ == survivors(old(self)@, delivered@),
            final(self).handles() == survivors(old(self).handles(), delivered@),
    {
        let mut delivered: Vec<bool> = Vec::new();
        let n = self.entries.len();
        let mut i: usize = 0;
        while i < n
            invariant
                n == self@.len(),
                self.wf(),
                i <= n,
                delivered@.len() == i,
                forall|h: &H| #[trigger] write.requires((h,)),
                forall|j: int|
                    0 <= j < i ==> write.ensures((&self.handles()[j],), #[trigger] delivered@[j]),
            decreases n - i,
        {
            let ok = write(self.handle_at(i));
            delivered.push(ok);
            i = i + 1;
        }
        self.prune(&delivered);
        delivered
    }
}

/// After `remove_id`, a registry without duplicates no longer holds the id.
pub(crate) proof fn lemma_removed_absent(ids: Seq<u64>, id: u64)
    requires
        ids.no_duplicates(),
    ensures
        !remove_id(ids, id).contains(id),
{
    ids.index_of_first_ensures(id);
    if ids.contains(id) {
        lemma_remove_keeps_unique(ids, ids.index_of_first(id)->0);
    }
}

/// A change in the life of a session, as the registry sees it.
pub enum Membership {
    /// A connection is accepted and its session registered.
    Connect(u64),
    /// The session's user sent the quit command.
    Quit(u64),
    /// The session's connection failed.
    Disconnect(u64),
}

/// Where a session is in its life.
pub enum Phase {
    Active,
    Removed,
}

/// The registry's ids and the phase of every session seen so far.
pub struct Relay {
    pub registry: Seq<u64>,
    pub phases: Map<u64, Phase>,
}

/// The relay after one event. A connection brings a fresh id (a known id
/// changes nothing); quitting or losing the connection ends an active
/// session and removes it from the registry.
pub open spec fn apply_membership(r: Relay, e: Membership) -> Relay {
    match e {
        Membership::Connect(id) => if r.phases.contains_key(id) {
            r
        } else {
            Relay { registry: add_id(r.registry, id), phases: r.phases.insert(id, Phase::Active) }
        },
        Membership::Quit(id) | Membership::Disconnect(id) => if r.phases.contains_key(id)
            && r.phases[id] is Active {
            Relay {
                registry: remove_id(r.registry, id),
                phases: r.phases.insert(id, Phase::Removed),
            }
        } else {
            r
        },
    }
}

/// The relay after `events`, from an empty one.
pub open spec fn run_memberships(events: Seq<Membership>) -> Relay
    decreases events.len(),
{
    if events.len() == 0 {
        Relay { registry: Seq::empty(), phases: Map::empty() }
    } else {
        apply_membership(run_memberships(events.drop_last()), events.last())
    }
}

/// The ids of the sessions that are active.
pub open spec fn active_ids(phases: Map<u64, Phase>) -> Set<u64> {
    phases.dom().filter(|id: u64| phases[id] is Active)
}

proof fn lemma_memberships_inv(events: Seq<Membership>)
    ensures
        ({
            let r = run_memberships(events);
            &&& r.registry.no_duplicates()
            &&& r.phases.dom().finite()
            &&& forall|x: u64| #[trigger]
                r.registry.contains(x) <==> (r.phases.contains_key(x) && r.phases[x] is Active)
        }),
    decreases events.len(),
{
    if events.len() > 0 {
        lemma_memberships_inv(events.drop_last());
        let p = run_memberships(events.drop_last());
        let r = run_memberships(events);
        match events.last() {
            Membership::Connect(id) => {
                if !p.phases.contains_key(id) {
                    assert(!p.registry.contains(id));
                    assert(r.registry == p.registry.push(id));
                    assert forall|x: u64| #[trigger]
                        r.registry.contains(x) <==> (r.phases.contains_key(x)
                            && r.phases[x] is Active) by {
                        if r.registry.contains(x) && x != id {
                            let k = choose|k: int| 0 <= k < r.registry.len() && r.registry[k] == x;
                            assert(p.registry[k] == x);
                        }
                        if p.registry.contains(x) {
                            let k = choose|k: int| 0 <= k < p.registry.len() && p.registry[k] == x;
                            assert(r.registry[k] == x);
                        }
                        assert(r.registry[p.registry.len() as int] == id);
                    }
                    assert forall|a: int, b: int|
                        0 <= a < r.registry.len() && 0 <= b < r.registry.len() && a != b implies
                        r.registry[a] != r.registry[b] by {
                        if a == p.registry.len() as int {
                            assert(p.registry[b] == r.registry[b]);
                        } else if b == p.registry.len() as int {
                            assert(p.registry[a] == r.registry[a]);
                        }
                    }
                }
            },
            Membership::Quit(id) | Membership::Disconnect(id) => {
                if p.phases.contains_key(id) && p.phases[id] is Active {
                    p.registry.index_of_first_ensures(id);
                    let i = p.registry.index_of_first(id)->0;
                    lemma_remove_keeps_unique(p.registry, i);
                }
            },
        }
    }
}

/// Over every sequence of connections, quits and disconnections, the
/// registry holds exactly as many sessions as are active.
pub proof fn lemma_registry_counts_active(events: Seq<Membership>)
    ensures
        run_memberships(events).registry.len() == active_ids(run_memberships(events).phases).len(),
{
    lemma_memberships_inv(events);
    let r = run_memberships(events);
    assert(active_ids(r.phases) =~= r.registry.to_set());
    r.registry.unique_seq_to_set();
}

} // verus!
