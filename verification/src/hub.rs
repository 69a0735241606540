//! Broadcast hub: the registry of live connections plus the fan-out of
//! published messages.
//!
//! Each live connection is identified by an unsigned id, unique and
//! monotonically increasing for the lifetime of the hub, and owns one
//! subscription: a bounded FIFO queue of raw encoded-frame byte buffers.
//! A publish lands once at the back of every live queue; when a queue is
//! full its oldest unread message is dropped rather than blocking the
//! publisher. A subscription created later never sees messages published
//! earlier.

use vstd::prelude::*;
use vstd::pervasive::VecAdditionalExecFns;

verus! {

/// Capacity of each connection's pending-message queue.
pub const BROADCAST_CAPACITY: usize = 100;

/// Mathematical model of the hub: the next id to issue and, in
/// registration order, each live connection's id and pending queue.
pub ghost struct HubModel {
    pub next_id: u64,
    pub conns: Seq<(u64, Seq<Seq<u8>>)>,
}

impl HubModel {
    /// The hub before any connection was added.
    pub open spec fn empty() -> HubModel {
        HubModel { next_id: 0, conns: Seq::empty() }
    }

    /// `id` is currently registered.
    pub open spec fn is_live(self, id: u64) -> bool {
        exists|k: int| 0 <= k < self.conns.len() && self.conns[k].0 == id
    }

    /// The registry position of a live `id`.
    pub open spec fn index_of(self, id: u64) -> int {
        choose|k: int| 0 <= k < self.conns.len() && self.conns[k].0 == id
    }

    /// The pending queue of a live `id`.
    pub open spec fn queue_of(self, id: u64) -> Seq<Seq<u8>>
        recommends
            self.is_live(id),
    {
        self.conns[self.index_of(id)].1
    }

    /// Ids are distinct and below the next id to issue; queues stay
    /// within capacity.
    pub open spec fn wf(self) -> bool {
        &&& forall|k: int, l: int|
            0 <= k < l < self.conns.len() ==> self.conns[k].0 != self.conns[l].0
        &&& forall|k: int| 0 <= k < self.conns.len() ==> (#[trigger] self.conns[k]).0 < self.next_id
        &&& forall|k: int|
            0 <= k < self.conns.len() ==> (#[trigger] self.conns[k]).1.len()
                <= BROADCAST_CAPACITY
    }

    /// Issuing the next id, with a fresh, empty subscription queue.
    pub open spec fn add_conn(self) -> (HubModel, u64)
        recommends
            self.next_id < u64::MAX,
    {
        (
            HubModel {
                next_id: (self.next_id + 1) as u64,
                conns: self.conns.push((self.next_id, Seq::empty())),
            },
            self.next_id,
        )
    }

    /// Retiring a connection: its entry leaves the registry; an id that
    /// is not live leaves the hub unchanged.
    pub open spec fn remove_conn(self, id: u64) -> HubModel {
        if self.is_live(id) {
            HubModel { next_id: self.next_id, conns: self.conns.remove(self.index_of(id)) }
        } else {
            self
        }
    }

    /// One queue after a publish: the oldest message is dropped when the
    /// queue is full, and the new message is appended.
    pub open spec fn deliver(q: Seq<Seq<u8>>, msg: Seq<u8>) -> Seq<Seq<u8>> {
        if q.len() < BROADCAST_CAPACITY {
            q.push(msg)
        } else {
            q.skip(1).push(msg)
        }
    }

    /// A publish: the message lands once at the back of every live
    /// connection's queue, the registry itself unchanged.
    pub open spec fn do_broadcast(self, msg: Seq<u8>) -> HubModel {
        HubModel {
            next_id: self.next_id,
            conns: Seq::new(
                self.conns.len(),
                |k: int| (self.conns[k].0, HubModel::deliver(self.conns[k].1, msg)),
            ),
        }
    }

    /// A receive on one subscription: the oldest pending message leaves
    /// the front of the queue; `None` when the queue is empty or the id
    /// is not live.
    pub open spec fn do_recv(self, id: u64) -> (HubModel, Option<Seq<u8>>) {
        if self.is_live(id) && self.queue_of(id).len() > 0 {
            let k = self.index_of(id);
            (
                HubModel {
                    next_id: self.next_id,
                    conns: self.conns.update(k, (id, self.conns[k].1.skip(1))),
                },
                Some(self.queue_of(id)[0]),
            )
        } else {
            (self, None)
        }
    }
}

/// Fan-out: one publish appends the message, exactly once, to the queue
/// of every live connection (dropping only the oldest entry of a full
/// queue), registers or retires nobody, and preserves well-formedness.
pub proof fn lemma_broadcast_fan_out(m: HubModel, msg: Seq<u8>)
    requires
        m.wf(),
    ensures
        m.do_broadcast(msg).wf(),
        forall|id: u64| m.do_broadcast(msg).is_live(id) == m.is_live(id),
        forall|id: u64|
            m.is_live(id) ==> m.do_broadcast(msg).queue_of(id) == HubModel::deliver(
                m.queue_of(id),
                msg,
            ),
{
    let n = m.do_broadcast(msg);
    assert(n.conns.len() == m.conns.len());
    assert forall|id: u64| n.is_live(id) == m.is_live(id) by {
        if m.is_live(id) {
            let k = m.index_of(id);
            assert(n.conns[k].0 == id);
        }
        if n.is_live(id) {
            let k = n.index_of(id);
            assert(m.conns[k].0 == id);
        }
    }
    assert forall|id: u64| m.is_live(id) implies n.queue_of(id) == HubModel::deliver(
        m.queue_of(id),
        msg,
    ) by {
        let k = m.index_of(id);
        let k2 = n.index_of(id);
        assert(n.conns[k].0 == id);
        assert(0 <= k2 < n.conns.len() && n.conns[k2].0 == id);
        assert(m.conns[k2].0 == id);
        assert(k == k2);
    }
}

/// Publish order: two messages published in sequence, with room in the
/// queues, stand at the back of every live queue in exactly that order.
/// Since receives pop the front, every subscriber sees them in publish
/// order.
pub proof fn lemma_broadcast_order(m: HubModel, msg1: Seq<u8>, msg2: Seq<u8>)
    requires
        m.wf(),
        forall|k: int|
            0 <= k < m.conns.len() ==> (#[trigger] m.conns[k]).1.len() + 2
                <= BROADCAST_CAPACITY,
    ensures
        forall|id: u64|
            m.is_live(id) ==> m.do_broadcast(msg1).do_broadcast(msg2).queue_of(id)
                == m.queue_of(id).push(msg1).push(msg2),
{
    let n1 = m.do_broadcast(msg1);
    let n2 = n1.do_broadcast(msg2);
    lemma_broadcast_fan_out(m, msg1);
    lemma_broadcast_fan_out(n1, msg2);
    assert forall|id: u64| m.is_live(id) implies n2.queue_of(id) == m.queue_of(id).push(
        msg1,
    ).push(msg2) by {
        let k = m.index_of(id);
        assert(m.queue_of(id).len() + 2 <= BROADCAST_CAPACITY);
        assert(n1.queue_of(id) == m.queue_of(id).push(msg1));
        assert(n2.queue_of(id) == n1.queue_of(id).push(msg2));
    }
}

/// A retired connection is gone for good: after its removal it is not
/// live, a later publish still leaves it unregistered, and a receive on
/// its id delivers nothing.
pub proof fn lemma_removed_gets_nothing(m: HubModel, id: u64, msg: Seq<u8>)
    requires
        m.wf(),
    ensures
        !m.remove_conn(id).is_live(id),
        m.remove_conn(id).wf(),
        !m.remove_conn(id).do_broadcast(msg).is_live(id),
        m.remove_conn(id).do_broadcast(msg).do_recv(id).1 is None,
{
    let n = m.remove_conn(id);
    if m.is_live(id) {
        let j = m.index_of(id);
        assert(0 <= j < m.conns.len() && m.conns[j].0 == id);
        assert forall|k: int| 0 <= k < n.conns.len() implies n.conns[k].0 != id by {
            if k < j {
                assert(n.conns[k] == m.conns[k]);
            } else {
                assert(n.conns[k] == m.conns[k + 1]);
            }
        }
        assert(n.wf()) by {
            assert forall|k: int, l: int|
                0 <= k < l < n.conns.len() implies n.conns[k].0 != n.conns[l].0 by {
                if l < j {
                } else if k < j {
                    assert(n.conns[l] == m.conns[l + 1]);
                } else {
                    assert(n.conns[k] == m.conns[k + 1]);
                    assert(n.conns[l] == m.conns[l + 1]);
                }
            }
            assert(forall|k: int|
                0 <= k < n.conns.len() ==> (#[trigger] n.conns[k]) == m.conns[
                    if k < j {
                        k
                    } else {
                        k + 1
                    }
                ]);
        }
    }
    lemma_broadcast_fan_out(n, msg);
}

/// One registered connection: its id and its pending-message queue.
struct Connection {
    id: u64,
    queue: Vec<Vec<u8>>,
}

/// Registry of live connection ids plus the per-connection fan-out
/// queues that stand for their broadcast subscriptions.
pub struct WebSocketManager {
    next_id: u64,
    conns: Vec<Connection>,
}

impl View for WebSocketManager {
    type V = HubModel;

    closed spec fn view(&self) -> HubModel {
        HubModel {
            next_id: self.next_id,
            conns: Seq::new(
                self.conns@.len(),
                |k: int| (self.conns@[k].id, self.conns@[k].queue.deep_view()),
            ),
        }
    }
}

/// Position of `id` in the registry vector, scanning from the front.
fn find_index(conns: &Vec<Connection>, id: u64) -> (r: Option<usize>)
    ensures
        match r {
            Some(k) => k < conns@.len() && conns@[k as int].id == id,
            None => forall|j: int| 0 <= j < conns@.len() ==> conns@[j].id != id,
        },
{
    let n = conns.len();
    let mut k: usize = 0;
    while k < n
        invariant
            n == conns@.len(),
            0 <= k <= n,
            forall|j: int| 0 <= j < k ==> conns@[j].id != id,
        decreases n - k,
    {
        if conns[k].id == id {
            return Some(k);
        }
        k = k + 1;
    }
    None
}

impl WebSocketManager {
    /// A hub with no connections; ids start at zero.
    pub fn new() -> (r: WebSocketManager)
        ensures
            r@ == HubModel::empty(),
            r@.wf(),
    {
        let r = WebSocketManager { next_id: 0, conns: Vec::new() };
        proof {
            assert(r@.conns =~= Seq::<(u64, Seq<Seq<u8>>)>::empty());
        }
        r
    }

    /// The id the next registration will be issued.
    pub fn next_connection_id(&self) -> (id: u64)
        ensures
            id == self@.next_id,
    {
        self.next_id
    }

    /// Issues the next id and registers it with a fresh, empty
    /// subscription queue. The id bound is the machine limit of the
    /// monotonically increasing counter.
    pub fn add_connection(&mut self) -> (id: u64)
        requires
            old(self)@.wf(),
            old(self)@.next_id < u64::MAX,
        ensures
            final(self)@ == old(self)@.add_conn().0,
            id == old(self)@.add_conn().1,
            final(self)@.wf(),
            final(self)@.is_live(id),
    {
        let id = self.next_id;
        self.next_id = self.next_id + 1;
        self.conns.push(Connection { id, queue: Vec::new() });
        proof {
            let m0 = old(self)@;
            let last = self.conns@.len() - 1;
            assert(self.conns@[last].queue.deep_view() =~= Seq::<Seq<u8>>::empty());
            assert(self@.conns =~= m0.conns.push((id, Seq::empty())));
            let n = self@.conns.len();
            assert(self@.conns[n - 1].0 == id);
            assert(forall|k: int| 0 <= k < n - 1 ==> self@.conns[k] == m0.conns[k]);
        }
        id
    }

    /// Retires a connection: removes its id from the live set and drops
    /// its queue. An id that is not live leaves the hub unchanged.
    pub fn remove_connection(&mut self, id: u64)
        requires
            old(self)@.wf(),
        ensures
            final(self)@ == old(self)@.remove_conn(id),
            final(self)@.wf(),
    {
        let ghost m0 = old(self)@;
        match find_index(&self.conns, id) {
            None => {
                proof {
                    assert(forall|k: int| 0 <= k < m0.conns.len() ==> m0.conns[k].0 != id);
                    assert(!m0.is_live(id));
                }
            },
            Some(k) => {
                proof {
                    assert(m0.conns[k as int].0 == id);
                    assert(m0.is_live(id));
                    let j = m0.index_of(id);
                    assert(0 <= j < m0.conns.len() && m0.conns[j].0 == id);
                    assert(j == k as int);
                }
                self.conns.remove(k);
                proof {
                    assert(self@.conns =~= m0.conns.remove(k as int));
                    lemma_removed_gets_nothing(m0, id, Seq::empty());
                }
            },
        }
    }

    /// Publishes one message: an independent copy lands at the back of
    /// every live connection's queue (the publisher's included), and the
    /// number of live connections comes back. With no live connection
    /// the message comes back unsent.
    pub fn broadcast(&mut self, message: Vec<u8>) -> (r: Result<usize, Vec<u8>>)
        requires
            old(self)@.wf(),
        ensures
            final(self)@.wf(),
            match r {
                Ok(count) => count == old(self)@.conns.len() && count > 0 && final(self)@
                    == old(self)@.do_broadcast(message@),
                Err(returned) => old(self)@.conns.len() == 0 && returned@ == message@
                    && final(self)@ == old(self)@,
            },
    {
        let ghost m0 = old(self)@;
        if self.conns.len() == 0 {
            return Err(message);
        }
        let count = self.conns.len();
        let mut k: usize = 0;
        while k < count
            invariant
                count == self.conns@.len(),
                count == m0.conns.len(),
                0 <= k <= count,
                self@.next_id == m0.next_id,
                forall|j: int| 0 <= j < count ==> (#[trigger] self@.conns[j]).0 == m0.conns[j].0,
                forall|j: int|
                    0 <= j < k ==> (#[trigger] self@.conns[j]).1 == HubModel::deliver(
                        m0.conns[j].1,
                        message@,
                    ),
                forall|j: int| k <= j < count ==> (#[trigger] self@.conns[j]).1 == m0.conns[j].1,
                m0.wf(),
            decreases count - k,
        {
            let ghost before = self@;
            let mut conn = Connection { id: 0, queue: Vec::new() };
            self.conns.set_and_swap(k, &mut conn);
            let ghost q0 = conn.queue.deep_view();
            proof {
                assert(q0 == before.conns[k as int].1);
                assert(q0 == m0.conns[k as int].1);
            }
            if conn.queue.len() >= BROADCAST_CAPACITY {
                conn.queue.remove(0);
                proof {
                    assert(conn.queue.deep_view() =~= q0.skip(1));
                }
            }
            let copy = vstd::slice::slice_to_vec(message.as_slice());
            proof {
                assert(copy.deep_view() =~= message@);
            }
            conn.queue.push(copy);
            proof {
                assert(conn.queue.deep_view() =~= HubModel::deliver(q0, message@));
            }
            let ghost cid = conn.id;
            self.conns.set_and_swap(k, &mut conn);
            proof {
                assert(cid == m0.conns[k as int].0);
                assert(self@.conns[k as int].0 == cid);
                assert(self@.conns[k as int].1 == HubModel::deliver(q0, message@));
                assert forall|j: int| 0 <= j < count && j != k implies self@.conns[j]
                    == before.conns[j] by {
                    assert(self@.conns[j].1 == self.conns@[j].queue.deep_view());
                }
                assert forall|j: int| 0 <= j < count implies (#[trigger] self@.conns[j]).0
                    == m0.conns[j].0 by {
                    if j != k {
                        assert(self@.conns[j] == before.conns[j]);
                    }
                }
                assert forall|j: int| 0 <= j < k + 1 implies (#[trigger] self@.conns[j]).1
                    == HubModel::deliver(m0.conns[j].1, message@) by {
                    if j != k {
                        assert(self@.conns[j] == before.conns[j]);
                    }
                }
                assert forall|j: int| k + 1 <= j < count implies (#[trigger] self@.conns[j]).1
                    == m0.conns[j].1 by {
                    assert(self@.conns[j] == before.conns[j]);
                }
            }
            k = k + 1;
        }
        proof {
            assert(self@.conns =~= m0.do_broadcast(message@).conns);
            assert(self@ == m0.do_broadcast(message@));
            lemma_broadcast_fan_out(m0, message@);
        }
        Ok(count)
    }

    /// Takes the oldest pending message off a connection's queue: `None`
    /// when the queue is empty or the id is not live.
    pub fn next_message(&mut self, id: u64) -> (r: Option<Vec<u8>>)
        requires
            old(self)@.wf(),
        ensures
            final(self)@.wf(),
            final(self)@ == old(self)@.do_recv(id).0,
            match r {
                Some(msg) => old(self)@.do_recv(id).1 == Some(msg@),
                None => old(self)@.do_recv(id).1 is None,
            },
    {
        let ghost m0 = old(self)@;
        let k = match find_index(&self.conns, id) {
            None => {
                proof {
                    assert(!m0.is_live(id));
                }
                return None;
            },
            Some(k) => k,
        };
        proof {
            assert(m0.conns[k as int].0 == id);
            assert(m0.is_live(id));
            let j = m0.index_of(id);
            assert(0 <= j < m0.conns.len() && m0.conns[j].0 == id);
            assert(j == k as int);
        }
        let ghost before = self@;
        let mut conn = Connection { id: 0, queue: Vec::new() };
        self.conns.set_and_swap(k, &mut conn);
        let ghost q0 = conn.queue.deep_view();
        proof {
            assert(q0 == m0.conns[k as int].1);
            assert(q0 == m0.queue_of(id));
        }
        if conn.queue.len() == 0 {
            self.conns.set_and_swap(k, &mut conn);
            proof {
                assert(self@.conns =~= m0.conns);
                assert(self@ == m0);
            }
            return None;
        }
        let msg = conn.queue.remove(0);
        proof {
            assert(conn.queue.deep_view() =~= q0.skip(1));
            assert(msg@ =~= q0[0]);
        }
        let ghost cid = conn.id;
        self.conns.set_and_swap(k, &mut conn);
        proof {
            assert(cid == id);
            assert(self@.conns =~= m0.conns.update(k as int, (id, q0.skip(1))));
            assert(self@ == m0.do_recv(id).0);
            assert(self@.wf()) by {
                assert(forall|j: int|
                    0 <= j < self@.conns.len() ==> (#[trigger] self@.conns[j]).0 == m0.conns[
                        j
                    ].0);
                assert(forall|j: int|
                    0 <= j < self@.conns.len() ==> (#[trigger] self@.conns[j]).1.len()
                        <= m0.conns[j].1.len());
            }
        }
        Some(msg)
    }
}

} // verus!
