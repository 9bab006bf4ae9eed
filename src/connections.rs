//! The server's table of live connections and the routing of readiness
//! notifications to table operations.
//!
//! A connection is identified by the number of its descriptor. The kernel
//! does not hand out a number again while a descriptor with it is open, and a
//! connection's descriptor stays open while the connection is in the table;
//! the table nevertheless refuses a second entry under a live identity rather
//! than replace the first.
use vstd::prelude::*;

use crate::readiness::{Message, PollId};

verus! {

/// The identities of a table's entries, in order.
pub open spec fn ids_of<C>(entries: Seq<(i32, C)>) -> Seq<i32> {
    entries.map_values(|e: (i32, C)| e.0)
}

/// An operation on the table: a connection accepted under an identity, or
/// the connection under an identity closed.
pub enum TableOp {
    Open(i32),
    Close(i32),
}

/// The identities after one operation: an open under a live identity is
/// refused, a close of an identity that is not live is ignored.
pub open spec fn apply_op(ids: Seq<i32>, op: TableOp) -> Seq<i32> {
    match op {
        TableOp::Open(id) => if ids.contains(id) {
            ids
        } else {
            ids.push(id)
        },
        TableOp::Close(id) => if ids.contains(id) {
            ids.remove(ids.index_of(id))
        } else {
            ids
        },
    }
}

/// The identities after a sequence of operations on an empty table.
pub open spec fn replay(ops: Seq<TableOp>) -> Seq<i32>
    decreases ops.len(),
{
    if ops.len() == 0 {
        Seq::empty()
    } else {
        apply_op(replay(ops.drop_last()), ops.last())
    }
}

/// The live connections, each with its identity.
#[derive(Debug)]
pub struct ConnectionTable<C> {
    entries: Vec<(i32, C)>,
}

impl<C> View for ConnectionTable<C> {
    type V = Seq<(i32, C)>;

    /// The entries, in the order they were opened.
    closed spec fn view(&self) -> Seq<(i32, C)> {
        self.entries@
    }
}

impl<C> ConnectionTable<C> {
    /// No two entries share an identity.
    pub open spec fn well_formed(&self) -> bool {
        ids_of(self@).no_duplicates()
    }

    /// Whether a connection is live under `id`.
    pub open spec fn live(&self, id: i32) -> bool {
        ids_of(self@).contains(id)
    }

    /// An empty table.
    pub fn new() -> (r: Self)
        ensures
            r@ == Seq::<(i32, C)>::empty(),
            r.well_formed(),
    {
        let r = ConnectionTable { entries: Vec::new() };
        assert(ids_of(r@) =~= Seq::<i32>::empty());
        r
    }

    /// The number of live connections.
    pub fn len(&self) -> (r: usize)
        ensures
            r == self@.len(),
    {
        self.entries.len()
    }

    /// The position of the entry under `id`, if one is live.
    pub fn find(&self, id: i32) -> (r: Option<usize>)
        requires
            self.well_formed(),
        ensures
            !self.live(id) ==> r is None,
            self.live(id) ==> r is Some && r->Some_0 < self@.len() && self@[r->Some_0 as int].0 == id
                && ids_of(self@).index_of(id) == r->Some_0,
    {
        let mut i: usize = 0;
        while i < self.entries.len()
            invariant
                self.well_formed(),
                i <= self@.len(),
                forall|j: int| 0 <= j < i ==> #[trigger] self@[j].0 != id,
            decreases self@.len() - i,
        {
            if self.entries[i].0 == id {
                proof {
                    let ids = ids_of(self@);
                    assert(ids[i as int] == id);
                    assert(ids.contains(id));
                    let k = ids.index_of(id);
                    assert(0 <= k < ids.len() && ids[k] == id);
                    assert(k == i);
                }
                return Some(i);
            }
            i += 1;
        }
        proof {
            assert forall|j: int| 0 <= j < ids_of(self@).len() implies ids_of(self@)[j] != id by {
                assert(self@[j].0 != id);
            }
        }
        None
    }

    /// Whether a connection is live under `id`.
    pub fn contains(&self, id: i32) -> (r: bool)
        requires
            self.well_formed(),
        ensures
            r == self.live(id),
    {
        self.find(id).is_some()
    }

    /// Adds a connection under `id`, unless one is live under it already; in
    /// that case the table is left alone and `conn` is handed back.
    pub fn insert(&mut self, id: i32, conn: C) -> (r: Result<(), C>)
        requires
            old(self).well_formed(),
        ensures
            final(self).well_formed(),
            ids_of(final(self)@) == apply_op(ids_of(old(self)@), TableOp::Open(id)),
            old(self).live(id) ==> r == Err::<(), C>(conn) && final(self)@ == old(self)@,
            !old(self).live(id) ==> r is Ok && final(self)@ == old(self)@.push((id, conn)),
    {
        if self.contains(id) {
            return Err(conn);
        }
        let ghost before = self@;
        self.entries.push((id, conn));
        proof {
            assert(ids_of(self@) =~= ids_of(before).push(id));
        }
        Ok(())
    }

    /// Removes and returns the connection under `id`; where none is live the
    /// table is left alone.
    pub fn remove(&mut self, id: i32) -> (r: Option<C>)
        requires
            old(self).well_formed(),
        ensures
            final(self).well_formed(),
            ids_of(final(self)@) == apply_op(ids_of(old(self)@), TableOp::Close(id)),
            !old(self).live(id) ==> r is None && final(self)@ == old(self)@,
            old(self).live(id) ==> exists|i: int|
                0 <= i < old(self)@.len() && old(self)@[i].0 == id && r == Some(old(self)@[i].1)
                    && final(self)@ == old(self)@.remove(i),
    {
        match self.find(id) {
            None => None,
            Some(i) => {
                let ghost before = self@;
                let (_, conn) = self.entries.remove(i);
                proof {
                    assert(ids_of(self@) =~= ids_of(before).remove(i as int));
                    lemma_remove_keeps_distinct(ids_of(before), i as int);
                }
                Some(conn)
            },
        }
    }

    /// The connection under `id`, to be worked on in place.
    pub fn get_mut(&mut self, id: i32) -> (r: Option<&mut C>)
        requires
            old(self).well_formed(),
        ensures
            !old(self).live(id) ==> r is None && final(self)@ == old(self)@,
            old(self).live(id) ==> ({
                let i = ids_of(old(self)@).index_of(id);
                &&& r is Some
                &&& *r->Some_0 == old(self)@[i].1
                &&& final(self)@ == old(self)@.update(i, (id, *final(r->Some_0)))
            }),
            final(self).well_formed(),
    {
        match self.find(id) {
            None => None,
            Some(i) => {
                proof {
                    assert forall|c: C| #[trigger]
                        ids_of(self@.update(i as int, (id, c))) == ids_of(self@) by {
                        assert(ids_of(self@.update(i as int, (id, c))) =~= ids_of(self@));
                    }
                }
                Some(&mut self.entries[i].1)
            },
        }
    }
}

proof fn lemma_remove_keeps_distinct(ids: Seq<i32>, i: int)
    requires
        ids.no_duplicates(),
        0 <= i < ids.len(),
    ensures
        ids.remove(i).no_duplicates(),
{
    let r = ids.remove(i);
    assert forall|a: int, b: int| 0 <= a < r.len() && 0 <= b < r.len() && a != b implies r[a] != r[b] by {
        let a0 = if a < i { a } else { a + 1 };
        let b0 = if b < i { b } else { b + 1 };
        assert(r[a] == ids[a0]);
        assert(r[b] == ids[b0]);
    }
}

/// One operation keeps the identities distinct.
proof fn lemma_apply_op_distinct(ids: Seq<i32>, op: TableOp)
    requires
        ids.no_duplicates(),
    ensures
        apply_op(ids, op).no_duplicates(),
{
    match op {
        TableOp::Open(id) => {
            if !ids.contains(id) {
                let r = ids.push(id);
                assert forall|a: int, b: int| 0 <= a < r.len() && 0 <= b < r.len() && a != b implies r[a]
                    != r[b] by {
                    if a == ids.len() {
                        assert(ids[b] != id);
                    } else if b == ids.len() {
                        assert(ids[a] != id);
                    }
                }
            }
        },
        TableOp::Close(id) => {
            if ids.contains(id) {
                let k = ids.index_of(id);
                lemma_remove_keeps_distinct(ids, k);
            }
        },
    }
}

/// Identity-reuse safety: whatever sequence of accepts and closes is applied
/// to an empty table, no two live entries ever share an identity.
pub proof fn lemma_no_shared_identity(ops: Seq<TableOp>)
    ensures
        replay(ops).no_duplicates(),
    decreases ops.len(),
{
    if ops.len() > 0 {
        lemma_no_shared_identity(ops.drop_last());
        lemma_apply_op_distinct(replay(ops.drop_last()), ops.last());
    }
}

/// What the server does for one readiness notification.
#[derive(Debug, PartialEq, Eq, Structural)]
pub enum Step {
    /// Accept a pending connection on the listening socket.
    Accept,
    /// Read, decode and dispatch what the connection under the identity sent.
    Serve(i32),
    /// Remove the connection under the identity and stop watching it.
    Close(i32),
    /// The listening socket failed: the server cannot go on.
    Shutdown,
}

/// The step for a notification.
pub open spec fn step_for(msg: Message<PollId>) -> Step {
    match msg {
        Message::Ready(PollId::Socket) => Step::Accept,
        Message::Ready(PollId::Client(fd)) => Step::Serve(fd),
        Message::Broken(PollId::Client(fd)) | Message::Hup(PollId::Client(fd)) => Step::Close(fd),
        Message::Broken(PollId::Socket) | Message::Hup(PollId::Socket) => Step::Shutdown,
    }
}

/// Decides what the server does for a notification.
pub fn route(msg: &Message<PollId>) -> (r: Step)
    ensures
        r == step_for(*msg),
{
    match msg {
        Message::Ready(PollId::Socket) => Step::Accept,
        Message::Ready(PollId::Client(fd)) => Step::Serve(*fd),
        Message::Broken(PollId::Client(fd)) | Message::Hup(PollId::Client(fd)) => Step::Close(*fd),
        Message::Broken(PollId::Socket) | Message::Hup(PollId::Socket) => Step::Shutdown,
    }
}

/// What the server knows of a client.
#[derive(Debug, PartialEq, Eq, Structural)]
pub enum ClientState {
    /// The client has not identified itself.
    Unknown,
}

impl ClientState {
    /// The state of a freshly accepted client.
    pub fn new() -> (r: ClientState)
        ensures
            r == ClientState::Unknown,
    {
        ClientState::Unknown
    }
}

} // verus!
