//! The bridge: one duplex channel fanned out to the connected clients.
//!
//! This module composes the pieces: a `DuplexChannel`, a monotonic connection
//! counter, and one entry per connected client carrying the bytes its sink
//! has observed. The broadcaster's loop body (`poll_once`) drains the channel
//! and fans the bytes out to every registered client, dropping — atomically,
//! within the same call — every client whose sink fails; a forwarder's loop
//! body (`forward_inbound`) puts one client's bytes onto the channel as a
//! single atomic write.
//!
//! Client sinks here are modelled: an entry records the bytes delivered to
//! it and whether its peer has become unreachable (`failing`). In the
//! deployed process the sink is a network socket and `failing` is the
//! outcome of the actual send; the contracts below say what the bridge does
//! with every such outcome.

use crate::bytes::append_bytes;
use crate::bytes::copy_bytes;
use crate::channel::read_amount;
use crate::channel::DuplexChannel;
use crate::registry::lemma_filter_element_of;
use vstd::prelude::*;

verus! {

/// The model of one registered client: its connection id, the bytes its
/// sink has observed so far, and whether the sink now fails.
pub ghost struct ClientModel {
    pub id: u64,
    pub delivered: Seq<u8>,
    pub failing: bool,
}

/// The predicate that keeps the clients whose sinks do not fail: what a
/// broadcast leaves registered.
pub open spec fn survives() -> spec_fn(ClientModel) -> bool {
    |c: ClientModel| !c.failing
}

/// Delivery of `b` to one client: its sink observes `b` after everything
/// delivered before, in order.
pub open spec fn deliver_to(b: Seq<u8>) -> spec_fn(ClientModel) -> ClientModel {
    |c: ClientModel| ClientModel { id: c.id, delivered: c.delivered + b, failing: c.failing }
}

/// Marking the client with the given id as unreachable, leaving every other
/// client alone.
pub open spec fn mark_failing(id: u64) -> spec_fn(ClientModel) -> ClientModel {
    |c: ClientModel|
        if c.id == id {
            ClientModel { id: c.id, delivered: c.delivered, failing: true }
        } else {
            c
        }
}

/// The connection ids of a client sequence, in registration order.
pub open spec fn ids_of(cs: Seq<ClientModel>) -> Seq<u64> {
    cs.map_values(|c: ClientModel| c.id)
}

/// What one broadcast of `b` does to the client set: every client whose
/// sink fails is removed, every other client stays — in order — and
/// observes `b` appended to what it had observed before.
pub open spec fn broadcast_result(cs: Seq<ClientModel>, b: Seq<u8>) -> Seq<ClientModel> {
    cs.filter(survives()).map_values(deliver_to(b))
}

/// The first client carrying the given id, if any. Under well-formedness
/// ids are unique, so this is the client with that id.
pub open spec fn find_client(cs: Seq<ClientModel>, id: u64) -> Option<ClientModel>
    decreases cs.len(),
{
    if cs.len() == 0 {
        None
    } else if cs[0].id == id {
        Some(cs[0])
    } else {
        find_client(cs.drop_first(), id)
    }
}

/// One registered client: the exec counterpart of `ClientModel`.
struct Client {
    id: u64,
    delivered: Vec<u8>,
    failing: bool,
}

impl View for Client {
    type V = ClientModel;

    closed spec fn view(&self) -> ClientModel {
        ClientModel { id: self.id, delivered: self.delivered@, failing: self.failing }
    }
}

/// The views of a client vector's elements.
spec fn views_of(s: Seq<Client>) -> Seq<ClientModel> {
    s.map_values(|c: Client| c@)
}

/// The bridge: the duplex channel, the connection counter, and the
/// currently registered clients.
pub struct Bridge {
    channel: DuplexChannel,
    next_id: u64,
    clients: Vec<Client>,
}

impl Bridge {
    /// The registered clients, in registration order.
    pub closed spec fn clients_view(&self) -> Seq<ClientModel> {
        views_of(self.clients@)
    }

    /// The id the next connection will be given.
    pub closed spec fn spec_next_id(&self) -> u64 {
        self.next_id
    }

    /// The bytes the device has produced that no poll has consumed yet.
    pub closed spec fn pending_bytes(&self) -> Seq<u8> {
        self.channel.pending_bytes()
    }

    /// The channel's write log: one whole buffer per write, in order.
    pub closed spec fn write_log(&self) -> Seq<Seq<u8>> {
        self.channel.write_log()
    }

    /// The outbound wire: the write log flattened.
    pub open spec fn wire(&self) -> Seq<u8> {
        self.write_log().flatten()
    }

    /// The registered connection ids, in registration order.
    pub open spec fn ids(&self) -> Seq<u64> {
        ids_of(self.clients_view())
    }

    /// Well-formedness: connection ids strictly increase in registration
    /// order (hence are unique), and all stay below the counter.
    pub open spec fn wf(&self) -> bool {
        &&& forall|i: int, j: int| 0 <= i < j < self.ids().len() ==> self.ids()[i] < self.ids()[j]
        &&& forall|i: int|
            0 <= i < self.ids().len() ==> #[trigger] self.ids()[i] < self.spec_next_id()
    }

    /// A fresh bridge: no clients, an untouched channel, ids from 0.
    pub fn new() -> (b: Self)
        ensures
            b.wf(),
            b.clients_view() == Seq::<ClientModel>::empty(),
            b.spec_next_id() == 0,
            b.pending_bytes() == Seq::<u8>::empty(),
            b.write_log() == Seq::<Seq<u8>>::empty(),
    {
        let b = Bridge { channel: DuplexChannel::new(), next_id: 0, clients: Vec::new() };
        proof {
            assert(b.clients_view() =~= Seq::<ClientModel>::empty());
        }
        b
    }

    /// What one accepted connection does: it hands out the counter's value
    /// as the fresh id, advances the counter, and appends a client that has
    /// observed nothing and whose sink works.
    pub open spec fn connect_post(pre: Self, post: Self, id: u64) -> bool {
        &&& id == pre.spec_next_id()
        &&& post.spec_next_id() == pre.spec_next_id() + 1
        &&& post.clients_view() == pre.clients_view().push(
            ClientModel { id, delivered: Seq::empty(), failing: false },
        )
        &&& post.pending_bytes() == pre.pending_bytes()
        &&& post.write_log() == pre.write_log()
    }

    /// Register a newly upgraded connection. Always succeeds; the returned
    /// id is fresh: strictly above every id handed out before, never seen
    /// in the client set until now.
    pub fn connect(&mut self) -> (id: u64)
        requires
            old(self).wf(),
            old(self).spec_next_id() < u64::MAX,
        ensures
            final(self).wf(),
            Self::connect_post(*old(self), *final(self), id),
            !old(self).ids().contains(id),
            final(self).ids().contains(id),
    {
        let id = self.next_id;
        self.clients.push(Client { id, delivered: Vec::new(), failing: false });
        self.next_id = self.next_id + 1;
        proof {
            broadcast use Seq::lemma_push_map_commute;

            let c = ClientModel { id, delivered: Seq::empty(), failing: false };
            assert(self.clients_view() =~= old(self).clients_view().push(c));
            assert(self.ids() =~= old(self).ids().push(id));
            assert forall|k: int| 0 <= k < old(self).ids().len() implies old(self).ids()[k]
                != id by {
                assert(old(self).ids()[k] < old(self).spec_next_id());
            }
            assert(self.ids().last() == id);
        }
        id
    }

    /// How many clients are registered.
    pub fn client_count(&self) -> (n: usize)
        ensures
            n == self.clients_view().len(),
    {
        self.clients.len()
    }

    /// Whether a client with the given id is currently registered.
    pub fn is_connected(&self, id: u64) -> (r: bool)
        ensures
            r == self.ids().contains(id),
    {
        let mut i: usize = 0;
        while i < self.clients.len()
            invariant
                i <= self.clients.len(),
                forall|k: int| 0 <= k < i ==> self.ids()[k] != id,
            decreases self.clients.len() - i,
        {
            if self.clients[i].id == id {
                assert(self.ids()[i as int] == id);
                return true;
            }
            i += 1;
        }
        false
    }

    /// The registered connection ids, in order: the snapshot a broadcast
    /// over real sinks iterates without holding the registry lock.
    pub fn connected_ids(&self) -> (r: Vec<u64>)
        ensures
            r@ == self.ids(),
    {
        let mut r: Vec<u64> = Vec::new();
        let mut i: usize = 0;
        while i < self.clients.len()
            invariant
                i <= self.clients.len(),
                r@.len() == i,
                forall|k: int| 0 <= k < i ==> r@[k] == self.ids()[k],
            decreases self.clients.len() - i,
        {
            r.push(self.clients[i].id);
            i += 1;
        }
        assert(r@ =~= self.ids());
        r
    }

    /// The bytes delivered so far to the client with the given id, or
    /// `None` if no such client is registered.
    pub fn delivered_to(&self, id: u64) -> (r: Option<Vec<u8>>)
        ensures
            match r {
                Some(v) => find_client(self.clients_view(), id) matches Some(c) && v@
                    == c.delivered,
                None => find_client(self.clients_view(), id) is None,
            },
    {
        let ghost full = self.clients_view();
        proof {
            assert(full.skip(0) =~= full);
        }
        let mut i: usize = 0;
        while i < self.clients.len()
            invariant
                full == self.clients_view(),
                i <= self.clients.len(),
                find_client(full, id) == find_client(full.skip(i as int), id),
            decreases self.clients.len() - i,
        {
            if self.clients[i].id == id {
                assert(full.skip(i as int)[0] == full[i as int]);
                return Some(copy_bytes(&self.clients[i].delivered));
            }
            proof {
                assert(full.skip(i as int)[0] == full[i as int]);
                assert(full.skip(i as int).drop_first() =~= full.skip(i + 1));
            }
            i += 1;
        }
        assert(full.skip(full.len() as int) =~= Seq::<ClientModel>::empty());
        None
    }

    /// Mark the client with the given id as unreachable: its next send
    /// fails. Every other client, the counter and the channel are left
    /// alone. (In the deployed process this is the peer dropping off the
    /// network; here it is how a test or a driver injects that fault.)
    pub fn fail_client(&mut self, id: u64)
        ensures
            final(self).clients_view() == old(self).clients_view().map_values(mark_failing(id)),
            final(self).spec_next_id() == old(self).spec_next_id(),
            final(self).pending_bytes() == old(self).pending_bytes(),
            final(self).write_log() == old(self).write_log(),
            old(self).wf() ==> final(self).wf(),
    {
        let ghost orig = self.clients_view();
        let mut updated: Vec<Client> = Vec::new();
        let mut i: usize = 0;
        while i < self.clients.len()
            invariant
                orig == self.clients_view(),
                i <= self.clients.len(),
                updated@.len() == i,
                forall|k: int|
                    0 <= k < i ==> updated@[k]@ == mark_failing(id)(
                        #[trigger] self.clients@[k]@,
                    ),
            decreases self.clients.len() - i,
        {
            let c = &self.clients[i];
            let now_failing = c.failing || c.id == id;
            updated.push(Client { id: c.id, delivered: copy_bytes(&c.delivered), failing: now_failing });
            proof {
                if c@.id == id {
                    assert(updated@[i as int]@ == mark_failing(id)(self.clients@[i as int]@));
                } else {
                    assert(updated@[i as int]@ =~= self.clients@[i as int]@);
                }
            }
            i += 1;
        }
        self.clients = updated;
        proof {
            assert(self.clients_view() =~= orig.map_values(mark_failing(id)));
            assert(self.ids() =~= old(self).ids());
        }
    }

    /// Deliver `bytes` to every registered client: the broadcast. Every
    /// client whose sink fails is removed within this same call — before it,
    /// the client is present; after it, absent — and every client whose
    /// sink works stays, in order, and observes exactly `bytes` after
    /// everything delivered to it before. One dead client removes neither
    /// delivery nor registration from any other.
    pub fn broadcast(&mut self, bytes: &Vec<u8>)
        requires
            old(self).wf(),
        ensures
            final(self).wf(),
            final(self).clients_view() == broadcast_result(old(self).clients_view(), bytes@),
            final(self).spec_next_id() == old(self).spec_next_id(),
            final(self).pending_bytes() == old(self).pending_bytes(),
            final(self).write_log() == old(self).write_log(),
    {
        let ghost orig = self.clients_view();
        let mut kept: Vec<Client> = Vec::new();
        let mut i: usize = 0;
        while i < self.clients.len()
            invariant
                orig == self.clients_view(),
                i <= self.clients.len(),
                views_of(kept@) == broadcast_result(orig.take(i as int), bytes@),
            decreases self.clients.len() - i,
        {
            proof {
                broadcast use Seq::lemma_filter_push;
                broadcast use Seq::lemma_push_map_commute;

                assert(orig.take(i + 1) =~= orig.take(i as int).push(orig[i as int]));
            }
            let c = &self.clients[i];
            if !c.failing {
                let mut grown = copy_bytes(&c.delivered);
                append_bytes(&mut grown, bytes);
                kept.push(Client { id: c.id, delivered: grown, failing: false });
                proof {
                    broadcast use Seq::lemma_filter_push;
                    broadcast use Seq::lemma_push_map_commute;

                    assert(kept@.last()@ == deliver_to(bytes@)(orig[i as int]));
                    assert(views_of(kept@) =~= broadcast_result(orig.take(i + 1), bytes@));
                }
            } else {
                proof {
                    broadcast use Seq::lemma_filter_push;

                    assert(views_of(kept@) =~= broadcast_result(orig.take(i + 1), bytes@));
                }
            }
            i += 1;
        }
        proof {
            assert(orig.take(orig.len() as int) =~= orig);
        }
        self.clients = kept;
        proof {
            assert forall|k: int| 0 <= k < orig.len() implies (#[trigger] orig[k]).id < old(
                self,
            ).spec_next_id() by {
                assert(old(self).ids()[k] == orig[k].id);
            }
            assert forall|a: int, b: int| 0 <= a < b < orig.len() implies orig[a].id
                < orig[b].id by {
                assert(old(self).ids()[a] == orig[a].id);
                assert(old(self).ids()[b] == orig[b].id);
            }
            lemma_broadcast_result_preserves_order(orig, bytes@, old(self).spec_next_id());
            assert forall|a: int, b: int|
                0 <= a < b < self.ids().len() implies self.ids()[a] < self.ids()[b] by {
                assert(self.ids()[a] == self.clients_view()[a].id);
                assert(self.ids()[b] == self.clients_view()[b].id);
            }
            assert forall|a: int|
                0 <= a < self.ids().len() implies #[trigger] self.ids()[a]
                < self.spec_next_id() by {
                assert(self.ids()[a] == self.clients_view()[a].id);
            }
        }
    }

    /// The outbound broadcaster's loop body: read up to `max_len` bytes
    /// from the channel and, if any arrived, broadcast them. Returns how
    /// many bytes were read. Bytes reach every surviving client in exactly
    /// the order the channel produced them; a quiet channel changes no
    /// client.
    pub fn poll_once(&mut self, max_len: usize) -> (n: usize)
        requires
            old(self).wf(),
        ensures
            final(self).wf(),
            n == read_amount(old(self).pending_bytes().len() as int, max_len as int),
            final(self).pending_bytes() == old(self).pending_bytes().skip(n as int),
            final(self).write_log() == old(self).write_log(),
            final(self).spec_next_id() == old(self).spec_next_id(),
            n > 0 ==> final(self).clients_view() == broadcast_result(
                old(self).clients_view(),
                old(self).pending_bytes().take(n as int),
            ),
            n == 0 ==> final(self).clients_view() == old(self).clients_view(),
    {
        let chunk = self.channel.read(max_len);
        proof {
            assert(self.clients_view() == old(self).clients_view());
            assert(self.ids() == old(self).ids());
            assert(self.wf());
        }
        let n = chunk.len();
        if n > 0 {
            self.broadcast(&chunk);
        }
        n
    }

    /// An inbound forwarder hands one client message to the channel: the
    /// whole buffer goes onto the wire as one atomic write, interleaved
    /// with no other writer's bytes. Nothing else of the bridge moves.
    pub fn forward_inbound(&mut self, bytes: &Vec<u8>) -> (ok: bool)
        ensures
            ok,
            final(self).write_log() == old(self).write_log().push(bytes@),
            final(self).wire() == old(self).wire() + bytes@,
            final(self).pending_bytes() == old(self).pending_bytes(),
            final(self).clients_view() == old(self).clients_view(),
            final(self).spec_next_id() == old(self).spec_next_id(),
            old(self).wf() ==> final(self).wf(),
    {
        let ok = self.channel.write(bytes);
        proof {
            assert(self.ids() == old(self).ids());
        }
        ok
    }

    /// The device produced `bytes` on the serial line: they join the back
    /// of the pending stream for later polls. Nothing else of the bridge
    /// moves.
    pub fn emit_from_device(&mut self, bytes: &Vec<u8>)
        ensures
            final(self).pending_bytes() == old(self).pending_bytes() + bytes@,
            final(self).write_log() == old(self).write_log(),
            final(self).clients_view() == old(self).clients_view(),
            final(self).spec_next_id() == old(self).spec_next_id(),
            old(self).wf() ==> final(self).wf(),
    {
        self.channel.emit(bytes);
        proof {
            assert(self.ids() == old(self).ids());
        }
    }

    /// How many writes the wire has seen.
    pub fn write_count(&self) -> (n: usize)
        ensures
            n == self.write_log().len(),
    {
        self.channel.write_count()
    }

    /// A copy of the `i`-th atomic write, whole.
    pub fn write_record(&self, i: usize) -> (r: Vec<u8>)
        requires
            i < self.write_log().len(),
        ensures
            r@ == self.write_log()[i as int],
    {
        self.channel.write_record(i)
    }

    /// The whole outbound wire so far, as one byte vector.
    pub fn wire_bytes(&self) -> (r: Vec<u8>)
        ensures
            r@ == self.wire(),
    {
        self.channel.wire_bytes()
    }
}

/// A broadcast keeps connection ids strictly increasing and below the
/// counter: surviving clients keep their ids and their order, and no new
/// id appears.
pub proof fn lemma_broadcast_result_preserves_order(cs: Seq<ClientModel>, b: Seq<u8>, bound: u64)
    requires
        forall|i: int, j: int| 0 <= i < j < cs.len() ==> cs[i].id < cs[j].id,
        forall|i: int| 0 <= i < cs.len() ==> (#[trigger] cs[i]).id < bound,
    ensures
        forall|i: int, j: int|
            0 <= i < j < broadcast_result(cs, b).len() ==> broadcast_result(cs, b)[i].id
                < broadcast_result(cs, b)[j].id,
        forall|i: int|
            0 <= i < broadcast_result(cs, b).len() ==> (#[trigger] broadcast_result(cs, b)[i]).id
                < bound,
    decreases cs.len(),
{
    broadcast use Seq::lemma_filter_push;
    broadcast use Seq::lemma_push_map_commute;

    if cs.len() == 0 {
        assert(cs.filter(survives()) =~= Seq::<ClientModel>::empty()) by {
            reveal(Seq::filter);
        }
        assert(broadcast_result(cs, b) =~= Seq::<ClientModel>::empty());
    } else {
        let t = cs.drop_last();
        let last = cs.last();
        lemma_broadcast_result_preserves_order(t, b, bound);
        assert(cs =~= t.push(last));
        let r = broadcast_result(cs, b);
        let rt = broadcast_result(t, b);
        if !last.failing {
            assert(r =~= rt.push(deliver_to(b)(last)));
            assert forall|i: int, j: int| 0 <= i < j < r.len() implies r[i].id < r[j].id by {
                if j < rt.len() {
                    assert(rt[i].id < rt[j].id);
                } else {
                    assert(r[j] == deliver_to(b)(last));
                    lemma_filter_element_of(t, survives(), i);
                    let m = choose|m: int|
                        0 <= m < t.len() && t[m] == t.filter(survives())[i];
                    assert(cs[m].id < cs[cs.len() - 1].id);
                }
            }
        } else {
            assert(r =~= rt);
        }
    }
}

/// Broadcasts deliver in channel order: broadcasting `b1` and then `b2`
/// leaves every client exactly as one broadcast of `b1` followed by `b2`
/// would — a surviving client observes `b1 + b2`, never a reordering.
pub proof fn lemma_broadcast_compose(cs: Seq<ClientModel>, b1: Seq<u8>, b2: Seq<u8>)
    ensures
        broadcast_result(broadcast_result(cs, b1), b2) == broadcast_result(cs, b1 + b2),
    decreases cs.len(),
{
    broadcast use Seq::lemma_filter_push;
    broadcast use Seq::lemma_push_map_commute;

    if cs.len() == 0 {
        assert(cs.filter(survives()) =~= Seq::<ClientModel>::empty()) by {
            reveal(Seq::filter);
        }
        assert(Seq::<ClientModel>::empty().filter(survives()) =~= Seq::<ClientModel>::empty())
            by {
            reveal(Seq::filter);
        }
        assert(broadcast_result(broadcast_result(cs, b1), b2) =~= broadcast_result(cs, b1 + b2));
    } else {
        let t = cs.drop_last();
        let last = cs.last();
        lemma_broadcast_compose(t, b1, b2);
        assert(cs =~= t.push(last));
        if !last.failing {
            let d1 = deliver_to(b1)(last);
            assert(broadcast_result(cs, b1) =~= broadcast_result(t, b1).push(d1));
            assert(!d1.failing);
            let d12 = deliver_to(b2)(d1);
            assert(broadcast_result(broadcast_result(cs, b1), b2) =~= broadcast_result(
                broadcast_result(t, b1),
                b2,
            ).push(d12));
            assert((last.delivered + b1) + b2 =~= last.delivered + (b1 + b2));
            assert(d12 == deliver_to(b1 + b2)(last));
            assert(broadcast_result(cs, b1 + b2) =~= broadcast_result(t, b1 + b2).push(d12));
        } else {
            assert(broadcast_result(cs, b1) =~= broadcast_result(t, b1));
            assert(broadcast_result(cs, b1 + b2) =~= broadcast_result(t, b1 + b2));
        }
    }
}

/// Every client whose sink does not fail observes the broadcast: it stays
/// registered, under its id, with exactly the broadcast bytes appended to
/// what it had observed before.
pub proof fn lemma_broadcast_delivers_to_survivor(cs: Seq<ClientModel>, b: Seq<u8>, i: int)
    requires
        0 <= i < cs.len(),
        !cs[i].failing,
    ensures
        exists|j: int|
            0 <= j < broadcast_result(cs, b).len() && broadcast_result(cs, b)[j] == deliver_to(b)(
                cs[i],
            ),
{
    broadcast use vstd::seq_lib::group_filter_ensures;

    let f = cs.filter(survives());
    assert(survives()(cs[i]));
    assert(f.contains(cs[i]));
    let j = choose|j: int| 0 <= j < f.len() && f[j] == cs[i];
    assert(broadcast_result(cs, b)[j] == deliver_to(b)(cs[i]));
}

/// A client whose sink fails on send is gone after the broadcast that saw
/// the failure: its id is registered before the call and absent after it.
pub proof fn lemma_broadcast_removes_failed(cs: Seq<ClientModel>, b: Seq<u8>, i: int)
    requires
        forall|a: int, c: int| 0 <= a < c < cs.len() ==> cs[a].id < cs[c].id,
        0 <= i < cs.len(),
        cs[i].failing,
    ensures
        ids_of(cs).contains(cs[i].id),
        !ids_of(broadcast_result(cs, b)).contains(cs[i].id),
{
    broadcast use vstd::seq_lib::group_filter_ensures;

    assert(ids_of(cs)[i] == cs[i].id);
    let r = broadcast_result(cs, b);
    assert forall|j: int| 0 <= j < r.len() implies ids_of(r)[j] != cs[i].id by {
        let f = cs.filter(survives());
        assert(r[j] == deliver_to(b)(f[j]));
        assert(survives()(f[j]));
        lemma_filter_element_of(cs, survives(), j);
        let m = choose|m: int| 0 <= m < cs.len() && cs[m] == f[j];
        if m != i {
            if m < i {
                assert(cs[m].id < cs[i].id);
            } else {
                assert(cs[i].id < cs[m].id);
            }
        }
    }
    if ids_of(r).contains(cs[i].id) {
        let j = choose|j: int| 0 <= j < ids_of(r).len() && ids_of(r)[j] == cs[i].id;
        assert(false);
    }
}

/// Connection ids strictly increase across successive connections, however
/// the accepting contexts are interleaved: whoever registers later gets the
/// larger id.
pub proof fn lemma_connect_ids_strictly_increase(
    b0: Bridge,
    b1: Bridge,
    b2: Bridge,
    id1: u64,
    id2: u64,
)
    requires
        Bridge::connect_post(b0, b1, id1),
        Bridge::connect_post(b1, b2, id2),
    ensures
        id2 > id1,
{
}

/// A session that is gone stays gone: a broadcast neither delivers to an
/// unregistered id nor brings it back. Once a client's entry has been
/// pruned, no further outbound frames exist for it.
pub proof fn lemma_absent_stays_absent(cs: Seq<ClientModel>, b: Seq<u8>, id: u64)
    requires
        !ids_of(cs).contains(id),
    ensures
        !ids_of(broadcast_result(cs, b)).contains(id),
{
    let r = broadcast_result(cs, b);
    let f = cs.filter(survives());
    assert forall|j: int| 0 <= j < r.len() implies ids_of(r)[j] != id by {
        assert(r[j] == deliver_to(b)(f[j]));
        lemma_filter_element_of(cs, survives(), j);
        let m = choose|m: int| 0 <= m < cs.len() && cs[m] == f[j];
        assert(ids_of(cs)[m] == cs[m].id);
    }
    if ids_of(r).contains(id) {
        let j = choose|j: int| 0 <= j < ids_of(r).len() && ids_of(r)[j] == id;
        assert(false);
    }
}

/// What the network handed an inbound forwarder on one receive.
pub enum RecvOutcome {
    /// One whole message of bytes from the client.
    Data(Vec<u8>),
    /// The peer closed its side gracefully.
    PeerClosed,
    /// The receive call failed.
    RecvFailed,
}

/// What the forwarder does next.
pub enum ForwardAction {
    /// Put exactly these bytes onto the channel as one atomic write, then
    /// receive again.
    WriteAndContinue(Vec<u8>),
    /// Leave the loop: the session's receive path is over. The registry
    /// entry is cleaned up lazily by the next failed broadcast, not here.
    Stop,
}

/// The inbound forwarder's decision for one receive outcome: bytes are
/// forwarded verbatim; a graceful close or a failed receive ends the loop,
/// and nothing else does.
pub fn forward_decision(o: RecvOutcome) -> (a: ForwardAction)
    ensures
        match o {
            RecvOutcome::Data(b) => a == ForwardAction::WriteAndContinue(b),
            RecvOutcome::PeerClosed => a == ForwardAction::Stop,
            RecvOutcome::RecvFailed => a == ForwardAction::Stop,
        },
{
    match o {
        RecvOutcome::Data(b) => ForwardAction::WriteAndContinue(b),
        RecvOutcome::PeerClosed => ForwardAction::Stop,
        RecvOutcome::RecvFailed => ForwardAction::Stop,
    }
}

} // verus!
