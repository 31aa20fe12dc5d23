//! The connection broker: who is connected, and what waits for those who
//! are not.
//!
//! Sockets themselves live outside; the broker decides, for each message,
//! whether it goes out now or joins the recipient's queue, and hands the
//! whole queue back, in order, when the recipient registers.

use vstd::prelude::*;

use crate::text::{str_eq, vec_contains_str};

verus! {

/// Broker state for one message type: the identities with a live
/// connection, and the pending queue of each identity that has none.
pub struct Broker<M> {
    pub connected: Vec<String>,
    pub queues: Vec<(String, Vec<M>)>,
}

/// Mathematical image of the broker.
pub ghost struct BrokerV<M> {
    pub connected: Seq<Seq<char>>,
    pub queues: Seq<(Seq<char>, Seq<M>)>,
}

impl<M> View for Broker<M> {
    type V = BrokerV<M>;

    open spec fn view(&self) -> BrokerV<M> {
        BrokerV {
            connected: self.connected.deep_view(),
            queues: Seq::new(self.queues@.len(), |i: int| (self.queues@[i].0@, self.queues@[i].1@)),
        }
    }
}

/// The first queue of the given identity, scanning from a position.
pub open spec fn queue_find<M>(qs: Seq<(Seq<char>, Seq<M>)>, id: Seq<char>, from: int) -> Option<
    int,
>
    decreases qs.len() - from,
{
    if from < 0 || from >= qs.len() {
        None
    } else if qs[from].0 == id {
        Some(from)
    } else {
        queue_find(qs, id, from + 1)
    }
}

/// What waits for an identity: its queue, or nothing.
pub open spec fn queue_of<M>(qs: Seq<(Seq<char>, Seq<M>)>, id: Seq<char>) -> Seq<M> {
    match queue_find(qs, id, 0) {
        Some(i) => qs[i].1,
        None => Seq::empty(),
    }
}

/// What a successful or failed queue search says about the entries.
pub proof fn lemma_queue_find<M>(qs: Seq<(Seq<char>, Seq<M>)>, id: Seq<char>, from: int)
    requires
        0 <= from <= qs.len(),
    ensures
        match queue_find(qs, id, from) {
            Some(i) => from <= i < qs.len() && qs[i].0 == id && forall|j: int|
                from <= j < i ==> (#[trigger] qs[j]).0 != id,
            None => forall|j: int| from <= j < qs.len() ==> (#[trigger] qs[j]).0 != id,
        },
    decreases qs.len() - from,
{
    if from < qs.len() && qs[from].0 != id {
        lemma_queue_find(qs, id, from + 1);
    }
}

/// What sending to an unconnected identity does to the queues: its queue
/// grows by the message at the end; an identity without a queue gets one.
pub open spec fn spec_enqueue<M>(qs: Seq<(Seq<char>, Seq<M>)>, id: Seq<char>, m: M) -> Seq<
    (Seq<char>, Seq<M>),
> {
    match queue_find(qs, id, 0) {
        Some(i) => qs.update(i, (qs[i].0, qs[i].1.push(m))),
        None => qs.push((id, seq![m])),
    }
}

/// What one send does to the whole broker: nothing when the identity is
/// connected (the message goes out on the wire), else the queue grows.
pub open spec fn spec_send<M>(b: BrokerV<M>, id: Seq<char>, m: M) -> BrokerV<M> {
    if b.connected.contains(id) {
        b
    } else {
        BrokerV { connected: b.connected, queues: spec_enqueue(b.queues, id, m) }
    }
}

/// What registering does: the identity's queue is handed back whole and
/// cleared, and the identity becomes connected.
pub open spec fn spec_register<M>(b: BrokerV<M>, id: Seq<char>) -> (BrokerV<M>, Seq<M>) {
    let flushed = queue_of(b.queues, id);
    let connected = if b.connected.contains(id) {
        b.connected
    } else {
        b.connected.push(id)
    };
    let queues = match queue_find(b.queues, id, 0) {
        Some(i) => b.queues.remove(i),
        None => b.queues,
    };
    (BrokerV { connected, queues }, flushed)
}

/// Enqueueing appends to the identity's own queue and no other.
pub proof fn lemma_enqueue<M>(qs: Seq<(Seq<char>, Seq<M>)>, id: Seq<char>, m: M)
    ensures
        queue_of(spec_enqueue(qs, id, m), id) == queue_of(qs, id).push(m),
        forall|k: Seq<char>|
            k != id ==> queue_of(spec_enqueue(qs, id, m), k) == queue_of(qs, k),
{
    lemma_queue_find(qs, id, 0);
    match queue_find(qs, id, 0) {
        Some(i) => {
            let t = qs.update(i, (qs[i].0, qs[i].1.push(m)));
            lemma_queue_find_update(qs, i, id, qs[i].1.push(m), id, 0);
            assert(queue_of(t, id) == t[i].1);
            assert forall|k: Seq<char>| k != id implies queue_of(t, k) == queue_of(qs, k) by {
                lemma_queue_find_update(qs, i, id, qs[i].1.push(m), k, 0);
                lemma_queue_find(qs, k, 0);
                match queue_find(qs, k, 0) {
                    Some(j) => {
                        assert(qs[j].0 == k);
                        assert(j != i);
                        assert(t[j].1 == qs[j].1);
                    },
                    None => {},
                }
            }
        },
        None => {
            let t = qs.push((id, seq![m]));
            lemma_queue_find_push(qs, id, seq![m], id, 0);
            assert(queue_of(t, id) == t[qs.len() as int].1);
            assert(queue_of(qs, id) =~= Seq::<M>::empty());
            assert(queue_of(qs, id).push(m) =~= seq![m]);
            assert forall|k: Seq<char>| k != id implies queue_of(t, k) == queue_of(qs, k) by {
                lemma_queue_find_push(qs, id, seq![m], k, 0);
                lemma_queue_find(qs, k, 0);
                match queue_find(qs, k, 0) {
                    Some(j) => {
                        assert(qs[j].0 == k);
                        assert(t[j].1 == qs[j].1);
                    },
                    None => {},
                }
            }
        },
    }
}

/// How a queue search behaves on entries with one value replaced in place.
proof fn lemma_queue_find_update<M>(
    qs: Seq<(Seq<char>, Seq<M>)>,
    i: int,
    id: Seq<char>,
    v: Seq<M>,
    k: Seq<char>,
    from: int,
)
    requires
        0 <= from <= qs.len(),
        0 <= i < qs.len(),
        qs[i].0 == id,
    ensures
        queue_find(qs.update(i, (id, v)), k, from) == queue_find(qs, k, from),
    decreases qs.len() - from,
{
    let t = qs.update(i, (id, v));
    if from < qs.len() {
        assert(t[from].0 == qs[from].0);
        if qs[from].0 != k {
            lemma_queue_find_update(qs, i, id, v, k, from + 1);
        }
    }
}

/// How a queue search behaves on entries with one queue appended.
proof fn lemma_queue_find_push<M>(
    qs: Seq<(Seq<char>, Seq<M>)>,
    id: Seq<char>,
    v: Seq<M>,
    k: Seq<char>,
    from: int,
)
    requires
        0 <= from <= qs.len(),
    ensures
        queue_find(qs.push((id, v)), k, from) == match queue_find(qs, k, from) {
            Some(i) => Some(i),
            None => if k == id {
                Some(qs.len() as int)
            } else {
                None::<int>
            },
        },
    decreases qs.len() - from,
{
    let t = qs.push((id, v));
    if from < qs.len() {
        assert(t[from] == qs[from]);
        if qs[from].0 != k {
            lemma_queue_find_push(qs, id, v, k, from + 1);
        }
    } else {
        assert(t[from].0 == id);
        if k != id {
            assert(queue_find(t, k, from + 1) is None);
        }
    }
}

/// A message sent to an identity with no live connection waits in its
/// queue, and that identity's next registration hands everything queued
/// back in the order it was sent.
pub proof fn lemma_store_and_forward<M>(b: BrokerV<M>, id: Seq<char>, m1: M, m2: M)
    requires
        !b.connected.contains(id),
    ensures
        spec_register(spec_send(spec_send(b, id, m1), id, m2), id).1 == queue_of(
            b.queues,
            id,
        ).push(m1).push(m2),
{
    lemma_enqueue(b.queues, id, m1);
    lemma_enqueue(spec_enqueue(b.queues, id, m1), id, m2);
}

impl<M> Broker<M> {
    /// A broker with nobody connected and nothing queued.
    pub fn new() -> (r: Self)
        ensures
            r@.connected == Seq::<Seq<char>>::empty(),
            r@.queues == Seq::<(Seq<char>, Seq<M>)>::empty(),
    {
        let r = Broker { connected: Vec::new(), queues: Vec::new() };
        proof {
            assert(r@.connected =~= Seq::<Seq<char>>::empty());
            assert(r@.queues =~= Seq::<(Seq<char>, Seq<M>)>::empty());
        }
        r
    }

    /// Whether an identity has a live connection.
    pub fn is_connected(&self, id: &str) -> (r: bool)
        ensures
            r == self@.connected.contains(id@),
    {
        vec_contains_str(&self.connected, id)
    }

    /// The identities with a live connection, in registration order.
    pub fn registered_ids(&self) -> (r: Vec<String>)
        ensures
            r.deep_view() == self@.connected,
    {
        crate::shared::dup_strings(&self.connected)
    }

    /// Find the position of an identity's queue.
    fn queue_position(&self, id: &str) -> (r: Option<usize>)
        ensures
            match r {
                Some(i) => Some(i as int) == queue_find(self@.queues, id@, 0),
                None => queue_find(self@.queues, id@, 0) is None,
            },
    {
        let mut i: usize = 0;
        while i < self.queues.len()
            invariant
                0 <= i <= self.queues@.len(),
                self@.queues.len() == self.queues@.len(),
                queue_find(self@.queues, id@, 0) == queue_find(self@.queues, id@, i as int),
            decreases self.queues@.len() - i,
        {
            proof {
                assert(self@.queues[i as int].0 == self.queues@[i as int].0@);
            }
            if str_eq(self.queues[i].0.as_str(), id) {
                return Some(i);
            }
            i = i + 1;
        }
        None
    }

    /// Route one message: deliver it on the wire when the identity is
    /// connected (the message comes back to be written), else queue it.
    pub fn send(&mut self, id: &str, m: M) -> (r: Option<M>)
        ensures
            final(self)@ == spec_send(old(self)@, id@, m),
            match r {
                Some(out) => old(self)@.connected.contains(id@) && out == m,
                None => !old(self)@.connected.contains(id@),
            },
    {
        if self.is_connected(id) {
            return Some(m);
        }
        proof {
            lemma_queue_find(self@.queues, id@, 0);
        }
        match self.queue_position(id) {
            Some(i) => {
                let ghost before = self@.queues;
                let ghost qk = self@.queues[i as int].0;
                let ghost qv = self@.queues[i as int].1;
                let entry = &mut self.queues[i];
                proof {
                    assert(entry.0@ == qk);
                    assert(entry.1@ == qv);
                }
                entry.1.push(m);
                proof {
                    assert(self@.queues =~= before.update(i as int, (qk, qv.push(m))));
                    assert(qk == id@);
                    assert(self@.queues =~= spec_enqueue(before, id@, m));
                    assert(final(self)@.connected =~= old(self)@.connected);
                }
            },
            None => {
                let ghost before = self@.queues;
                let mut q: Vec<M> = Vec::new();
                q.push(m);
                let ghost qv = q@;
                self.queues.push((id.to_owned(), q));
                proof {
                    assert(qv =~= seq![m]);
                    assert(self@.queues =~= before.push((id@, seq![m])));
                    assert(self@.queues =~= spec_enqueue(before, id@, m));
                    assert(final(self)@.connected =~= old(self)@.connected);
                }
            },
        }
        None
    }

    /// Register an identity: its whole queue comes back, oldest first, to
    /// be written to the fresh connection, and later sends go to the wire.
    pub fn register(&mut self, id: String) -> (flushed: Vec<M>)
        ensures
            final(self)@ == spec_register(old(self)@, id@).0,
            flushed@ == spec_register(old(self)@, id@).1,
            flushed@ == queue_of(old(self)@.queues, id@),
    {
        proof {
            lemma_queue_find(self@.queues, id@, 0);
        }
        let flushed: Vec<M> = match self.queue_position(id.as_str()) {
            Some(i) => {
                let ghost before = self@.queues;
                let entry = self.queues.remove(i);
                proof {
                    assert(entry.1@ == before[i as int].1);
                    assert(self@.queues =~= before.remove(i as int));
                }
                entry.1
            },
            None => {
                let empty: Vec<M> = Vec::new();
                proof {
                    assert(empty@ =~= queue_of(self@.queues, id@));
                }
                empty
            },
        };
        if !self.is_connected(id.as_str()) {
            let ghost conn = self@.connected;
            let ghost idv = id@;
            self.connected.push(id);
            proof {
                assert(self@.connected =~= conn.push(idv));
            }
        }
        flushed
    }

    /// Drop an identity's live connection; whatever is queued stays, and
    /// later sends queue again.
    pub fn disconnect(&mut self, id: &str)
        ensures
            !final(self)@.connected.contains(id@),
            final(self)@.queues == old(self)@.queues,
            forall|k: Seq<char>|
                k != id@ ==> (final(self)@.connected.contains(k) == old(
                    self,
                )@.connected.contains(k)),
    {
        let ghost qs = self@.queues;
        let mut i: usize = 0;
        while i < self.connected.len()
            invariant
                0 <= i <= self.connected@.len(),
                self@.queues == qs,
                forall|j: int|
                    0 <= j < i ==> #[trigger] self@.connected[j] != id@,
                forall|k: Seq<char>|
                    k != id@ ==> (self@.connected.contains(k) == old(
                        self,
                    )@.connected.contains(k)),
                forall|k: Seq<char>|
                    self@.connected.contains(k) ==> old(self)@.connected.contains(k),
            decreases self.connected@.len() - i,
        {
            proof {
                assert(self@.connected[i as int] == self.connected@[i as int]@);
            }
            if str_eq(self.connected[i].as_str(), id) {
                let ghost conn = self@.connected;
                self.connected.remove(i);
                proof {
                    assert(self@.connected =~= conn.remove(i as int));
                    assert forall|k: Seq<char>| k != id@ implies (self@.connected.contains(k)
                        == conn.contains(k)) by {
                        lemma_remove_contains(conn, i as int, k);
                    }
                    assert forall|k: Seq<char>| self@.connected.contains(k) implies conn.contains(
                        k,
                    ) by {
                        lemma_remove_contains_fwd(conn, i as int, k);
                    }
                }
            } else {
                i = i + 1;
            }
        }
        proof {
            assert forall|j: int|
                0 <= j < self@.connected.len() implies #[trigger] self@.connected[j] != id@ by {}
            if self@.connected.contains(id@) {
                let w = choose|j: int|
                    0 <= j < self@.connected.len() && self@.connected[j] == id@;
                assert(false);
            }
        }
    }
}

/// Membership of any other element is unchanged by removing one position.
proof fn lemma_remove_contains(s: Seq<Seq<char>>, i: int, k: Seq<char>)
    requires
        0 <= i < s.len(),
        k != s[i],
    ensures
        s.remove(i).contains(k) == s.contains(k),
{
    let t = s.remove(i);
    if s.contains(k) {
        let j = choose|j: int| 0 <= j < s.len() && s[j] == k;
        if j < i {
            assert(t[j] == k);
        } else {
            assert(t[j - 1] == k);
        }
        assert(t.contains(k));
    }
    if t.contains(k) {
        let j = choose|j: int| 0 <= j < t.len() && t[j] == k;
        if j < i {
            assert(s[j] == k);
        } else {
            assert(s[j + 1] == k);
        }
        assert(s.contains(k));
    }
}

/// Whatever a sequence holds after a removal, it held before.
proof fn lemma_remove_contains_fwd(s: Seq<Seq<char>>, i: int, k: Seq<char>)
    requires
        0 <= i < s.len(),
    ensures
        s.remove(i).contains(k) ==> s.contains(k),
{
    let t = s.remove(i);
    if t.contains(k) {
        let j = choose|j: int| 0 <= j < t.len() && t[j] == k;
        if j < i {
            assert(s[j] == k);
        } else {
            assert(s[j + 1] == k);
        }
        assert(s.contains(k));
    }
}

} // verus!
