//! The client registry: the set of connected clients eligible to receive
//! broadcast bytes.
//!
//! Each registered client is known by a connection id drawn from a monotonic
//! counter: ids are handed out in strictly increasing order and never reused
//! for the lifetime of the process. Removal takes out exactly the entry
//! carrying the removed id, leaving the others in their original order, and
//! is idempotent: removing an id that is already gone changes nothing.
//!
//! Structural mutation (insert, remove) is what the deployed process
//! serializes under the registry's lock; the broadcast's per-sink sends work
//! over a snapshot so that one slow client cannot stall registration.

use vstd::prelude::*;

verus! {

/// The predicate that keeps every id other than `id`: what one `remove`
/// leaves behind.
pub open spec fn keep_other_than(id: u64) -> spec_fn(u64) -> bool {
    |x: u64| x != id
}

/// Filtering a sequence whose every element the predicate keeps changes
/// nothing. In particular a second `remove` of the same id is a no-op:
/// removal is idempotent.
pub proof fn lemma_filter_all_kept(s: Seq<u64>, pred: spec_fn(u64) -> bool)
    requires
        forall|i: int| 0 <= i < s.len() ==> pred(#[trigger] s[i]),
    ensures
        s.filter(pred) == s,
    decreases s.len(),
{
    reveal(Seq::filter);
    if s.len() == 0 {
        assert(s.filter(pred) =~= s);
    } else {
        lemma_filter_all_kept(s.drop_last(), pred);
        assert(s.filter(pred) =~= s);
    }
}

/// The registry of currently connected clients, by connection id.
pub struct ClientRegistry {
    next_id: u64,
    ids: Vec<u64>,
}

impl ClientRegistry {
    /// The registered connection ids, in order of registration.
    pub closed spec fn ids_seq(&self) -> Seq<u64> {
        self.ids@
    }

    /// The id the next registration will return.
    pub closed spec fn spec_next_id(&self) -> u64 {
        self.next_id
    }

    /// Well-formedness: ids are strictly increasing in registration order
    /// (hence unique), and every id ever handed out stays below the counter.
    pub open spec fn wf(&self) -> bool {
        &&& forall|i: int, j: int|
            0 <= i < j < self.ids_seq().len() ==> self.ids_seq()[i] < self.ids_seq()[j]
        &&& forall|i: int|
            0 <= i < self.ids_seq().len() ==> #[trigger] self.ids_seq()[i] < self.spec_next_id()
    }

    /// What one registration does: it hands out the counter's value as the
    /// fresh id, advances the counter by one, and appends the id.
    pub open spec fn register_post(pre: Self, post: Self, id: u64) -> bool {
        &&& id == pre.spec_next_id()
        &&& post.spec_next_id() == pre.spec_next_id() + 1
        &&& post.ids_seq() == pre.ids_seq().push(id)
    }

    /// An empty registry; the first registration returns id 0.
    pub fn new() -> (r: Self)
        ensures
            r.wf(),
            r.ids_seq() == Seq::<u64>::empty(),
            r.spec_next_id() == 0,
    {
        ClientRegistry { next_id: 0, ids: Vec::new() }
    }

    /// The id the next registration will return. A caller that cannot see
    /// the registry's history can check here that the id space is not
    /// exhausted before registering.
    pub fn upcoming_id(&self) -> (r: u64)
        ensures
            r == self.spec_next_id(),
    {
        self.next_id
    }

    /// How many clients are registered.
    pub fn len(&self) -> (n: usize)
        ensures
            n == self.ids_seq().len(),
    {
        self.ids.len()
    }

    /// Whether `id` is currently registered.
    pub fn contains(&self, id: u64) -> (r: bool)
        ensures
            r == self.ids_seq().contains(id),
    {
        let mut i: usize = 0;
        while i < self.ids.len()
            invariant
                i <= self.ids.len(),
                forall|k: int| 0 <= k < i ==> self.ids@[k] != id,
        decreases self.ids.len() - i,
        {
            if self.ids[i] == id {
                return true;
            }
            i += 1;
        }
        false
    }

    /// Add a client: always succeeds and returns a fresh id, strictly
    /// greater than every id handed out before and never seen in the
    /// registry until now.
    pub fn register(&mut self) -> (id: u64)
        requires
            old(self).wf(),
            old(self).spec_next_id() < u64::MAX,
        ensures
            final(self).wf(),
            Self::register_post(*old(self), *final(self), id),
            !old(self).ids_seq().contains(id),
            final(self).ids_seq().contains(id),
    {
        let id = self.next_id;
        self.ids.push(id);
        self.next_id = self.next_id + 1;
        proof {
            assert forall|k: int| 0 <= k < old(self).ids_seq().len() implies old(
                self,
            ).ids_seq()[k] != id by {
                assert(old(self).ids_seq()[k] < old(self).spec_next_id());
            }
            assert(self.ids_seq().last() == id);
        }
        id
    }

    /// Remove the client with the given id, if it is there: exactly the
    /// entries carrying other ids remain, in order. Removing an id that is
    /// not registered is a no-op, so removal is idempotent.
    pub fn remove(&mut self, id: u64)
        ensures
            final(self).ids_seq() == old(self).ids_seq().filter(keep_other_than(id)),
            final(self).spec_next_id() == old(self).spec_next_id(),
            old(self).wf() ==> final(self).wf(),
    {
        let ghost pred = keep_other_than(id);
        let mut kept: Vec<u64> = Vec::new();
        let mut i: usize = 0;
        while i < self.ids.len()
            invariant
                pred == keep_other_than(id),
                i <= self.ids.len(),
                kept@ == self.ids@.take(i as int).filter(pred),
        decreases self.ids.len() - i,
        {
            let x = self.ids[i];
            if x != id {
                kept.push(x);
            }
            proof {
                broadcast use Seq::lemma_filter_push;

                assert(self.ids@.take(i + 1) =~= self.ids@.take(i as int).push(
                    self.ids@[i as int],
                ));
                assert(kept@ =~= self.ids@.take(i + 1).filter(pred));
            }
            i += 1;
        }
        proof {
            assert(self.ids@.take(self.ids@.len() as int) =~= self.ids@);
        }
        self.ids = kept;
        proof {
            if old(self).wf() {
                assert forall|a: int, b: int|
                    0 <= a < b < self.ids_seq().len() implies self.ids_seq()[a]
                    < self.ids_seq()[b] by {
                    lemma_filter_preserves_strict_order(old(self).ids_seq(), pred, a, b);
                }
                assert forall|a: int|
                    0 <= a < self.ids_seq().len() implies #[trigger] self.ids_seq()[a]
                    < self.spec_next_id() by {
                    let s = old(self).ids_seq();
                    lemma_filter_element_of(s, pred, a);
                    let m = choose|m: int| 0 <= m < s.len() && s[m] == s.filter(pred)[a];
                    assert(s[m] < old(self).spec_next_id());
                }
            }
        }
    }

    /// A copy of the registered ids, in order: the consistent snapshot a
    /// broadcast iterates over without holding the registry's lock.
    pub fn snapshot(&self) -> (r: Vec<u64>)
        ensures
            r@ == self.ids_seq(),
    {
        let mut r: Vec<u64> = Vec::new();
        let mut i: usize = 0;
        while i < self.ids.len()
            invariant
                i <= self.ids.len(),
                r@ == self.ids@.take(i as int),
        decreases self.ids.len() - i,
        {
            r.push(self.ids[i]);
            assert(self.ids@.take(i + 1) =~= self.ids@.take(i as int).push(self.ids@[i as int]));
            i += 1;
        }
        assert(self.ids@.take(self.ids@.len() as int) =~= self.ids@);
        r
    }
}

/// Every element of a filtered sequence is an element of the original, at
/// some original position.
pub proof fn lemma_filter_element_of<A>(s: Seq<A>, pred: spec_fn(A) -> bool, k: int)
    requires
        0 <= k < s.filter(pred).len(),
    ensures
        exists|m: int| 0 <= m < s.len() && s[m] == s.filter(pred)[k],
    decreases s.len(),
{
    reveal(Seq::filter);
    if s.len() > 0 {
        if k < s.drop_last().filter(pred).len() {
            lemma_filter_element_of(s.drop_last(), pred, k);
            let m = choose|m: int|
                0 <= m < s.drop_last().len() && s.drop_last()[m] == s.drop_last().filter(pred)[k];
            assert(s[m] == s.filter(pred)[k]);
        } else {
            assert(s[s.len() - 1] == s.filter(pred)[k]);
        }
    }
}

/// Filtering keeps strict order: if the original is strictly increasing,
/// so is what the filter keeps.
pub proof fn lemma_filter_preserves_strict_order(
    s: Seq<u64>,
    pred: spec_fn(u64) -> bool,
    a: int,
    b: int,
)
    requires
        forall|i: int, j: int| 0 <= i < j < s.len() ==> s[i] < s[j],
        0 <= a < b < s.filter(pred).len(),
    ensures
        s.filter(pred)[a] < s.filter(pred)[b],
    decreases s.len(),
{
    reveal(Seq::filter);
    if s.len() > 0 {
        let t = s.drop_last();
        assert(forall|i: int, j: int| 0 <= i < j < t.len() ==> t[i] < t[j]);
        if b < t.filter(pred).len() {
            lemma_filter_preserves_strict_order(t, pred, a, b);
        } else {
            // the last kept element is s.last(); the one at `a` comes from
            // the strictly smaller prefix
            assert(s.filter(pred)[b] == s.last());
            lemma_filter_element_of(t, pred, a);
            let m = choose|m: int| 0 <= m < t.len() && t[m] == t.filter(pred)[a];
            assert(s[m] < s[s.len() - 1]);
        }
    }
}

/// Removal is idempotent: removing an id a second time leaves the ids
/// exactly as the first removal left them. Calling `remove` twice gives the
/// same registry state as calling it once.
pub proof fn lemma_remove_idempotent(s: Seq<u64>, id: u64)
    ensures
        s.filter(keep_other_than(id)).filter(keep_other_than(id)) == s.filter(keep_other_than(id)),
{
    broadcast use vstd::seq_lib::group_filter_ensures;

    lemma_filter_all_kept(s.filter(keep_other_than(id)), keep_other_than(id));
}

/// Connection ids strictly increase across successive registrations:
/// whoever registers later gets the larger id.
pub proof fn lemma_register_ids_strictly_increase(
    r0: ClientRegistry,
    r1: ClientRegistry,
    r2: ClientRegistry,
    id1: u64,
    id2: u64,
)
    requires
        ClientRegistry::register_post(r0, r1, id1),
        ClientRegistry::register_post(r1, r2, id2),
    ensures
        id2 > id1,
{
}

} // verus!
