//! The relay's connection registry, broadcaster, and join-time snapshot.
//!
//! A [`Relay`] is the single source of truth for who is connected and where
//! each player last was: one row per live connection, holding its id, its
//! outbound delivery queue, and its last reported position (absent until the
//! connection's first update). Ids come from one monotonically increasing
//! counter and are never reused. Callers serialize access (one lock around
//! the whole value) and perform no I/O while holding it: every operation
//! here only moves plain values, and the outbound queues are drained by the
//! caller and written to the transport outside the lock.
//!
//! Broadcast fan-out is best-effort: a recipient whose outbound queue is at
//! capacity misses that one message, and an excluded sender is never
//! enqueued to. Operations on an id that is not registered are no-ops, not
//! errors, which tolerates races between disconnect and in-flight traffic
//! and makes session teardown idempotent.

use crate::msg::{msg_models, ClientMessage, PlayerPosition, ServerMessage, ServerMessageModel};
use vstd::prelude::*;

verus! {

/// One live connection's registry row.
struct Conn {
    id: u32,
    queue: Vec<ServerMessage>,
    pos: Option<PlayerPosition>,
}

/// Model of one registry row.
#[verifier::ext_equal]
pub struct ConnModel {
    pub id: u32,
    pub queue: Seq<ServerMessageModel>,
    pub pos: Option<PlayerPosition>,
}

impl View for Conn {
    type V = ConnModel;

    closed spec fn view(&self) -> ConnModel {
        ConnModel { id: self.id, queue: msg_models(self.queue@), pos: self.pos }
    }
}

/// Index of the row with the given id, or -1 if no row has it.
pub open spec fn spec_find(rows: Seq<ConnModel>, id: u32) -> int
    decreases rows.len(),
{
    if rows.len() == 0 {
        -1
    } else if rows[0].id == id {
        0
    } else {
        let rest = spec_find(rows.subrange(1, rows.len() as int), id);
        if rest < 0 {
            -1
        } else {
            rest + 1
        }
    }
}

/// Whether some row has the given id.
pub open spec fn spec_has(rows: Seq<ConnModel>, id: u32) -> bool {
    spec_find(rows, id) >= 0
}

/// `spec_find` returns the first index with the id, or -1 when the id is
/// absent.
pub proof fn lemma_find_characterizes(rows: Seq<ConnModel>, id: u32)
    ensures
        -1 <= spec_find(rows, id) < rows.len(),
        spec_find(rows, id) >= 0 ==> rows[spec_find(rows, id)].id == id,
        spec_find(rows, id) >= 0 ==> forall|j: int|
            0 <= j < spec_find(rows, id) ==> rows[j].id != id,
        spec_find(rows, id) < 0 <==> (forall|i: int| 0 <= i < rows.len() ==> rows[i].id != id),
    decreases rows.len(),
{
    if rows.len() > 0 && rows[0].id != id {
        let rest = rows.subrange(1, rows.len() as int);
        lemma_find_characterizes(rest, id);
        let f = spec_find(rows, id);
        if f >= 0 {
            assert forall|j: int| 0 <= j < f implies rows[j].id != id by {
                if j > 0 {
                    assert(rows[j] == rest[j - 1]);
                }
            }
        } else {
            assert forall|i: int| 0 <= i < rows.len() implies rows[i].id != id by {
                if i > 0 {
                    assert(rows[i] == rest[i - 1]);
                }
            }
        }
    }
}

/// A queue after a best-effort enqueue: the message is appended when there
/// is room, and dropped when the queue is at capacity.
pub open spec fn spec_push_bounded(
    q: Seq<ServerMessageModel>,
    m: ServerMessageModel,
    cap: nat,
) -> Seq<ServerMessageModel> {
    if q.len() < cap {
        q.push(m)
    } else {
        q
    }
}

/// One row after a broadcast: untouched when the row is the excluded sender,
/// otherwise its queue gets the message (best-effort).
pub open spec fn spec_broadcast_row(
    row: ConnModel,
    m: ServerMessageModel,
    exclude: Option<u32>,
    cap: nat,
) -> ConnModel {
    if exclude == Some(row.id) {
        row
    } else {
        ConnModel { id: row.id, queue: spec_push_bounded(row.queue, m, cap), pos: row.pos }
    }
}

/// The whole registry after a broadcast.
pub open spec fn spec_broadcast(
    rows: Seq<ConnModel>,
    m: ServerMessageModel,
    exclude: Option<u32>,
    cap: nat,
) -> Seq<ConnModel> {
    Seq::new(rows.len(), |i: int| spec_broadcast_row(rows[i], m, exclude, cap))
}

/// The registry after a position upsert: a no-op when the id is absent.
pub open spec fn spec_set_pos(
    rows: Seq<ConnModel>,
    id: u32,
    pos: PlayerPosition,
) -> Seq<ConnModel> {
    let i = spec_find(rows, id);
    if i < 0 {
        rows
    } else {
        rows.update(i, ConnModel { id: rows[i].id, queue: rows[i].queue, pos: Some(pos) })
    }
}

/// The registry after removing an id: a no-op when the id is absent.
pub open spec fn spec_remove(rows: Seq<ConnModel>, id: u32) -> Seq<ConnModel> {
    let i = spec_find(rows, id);
    if i < 0 {
        rows
    } else {
        rows.remove(i)
    }
}

/// The point-in-time snapshot handed to a new joiner: one `(id, position)`
/// pair per row that has reported a position, in registry order, skipping
/// the excluded id.
pub open spec fn spec_snapshot(rows: Seq<ConnModel>, exclude: u32) -> Seq<(u32, PlayerPosition)>
    decreases rows.len(),
{
    if rows.len() == 0 {
        Seq::empty()
    } else {
        spec_snapshot_entry(rows[0], exclude) + spec_snapshot(
            rows.subrange(1, rows.len() as int),
            exclude,
        )
    }
}

/// The zero or one snapshot entries one row contributes.
pub open spec fn spec_snapshot_entry(row: ConnModel, exclude: u32) -> Seq<(u32, PlayerPosition)> {
    match row.pos {
        Some(p) => if row.id != exclude {
            seq![(row.id, p)]
        } else {
            Seq::empty()
        },
        None => Seq::empty(),
    }
}

/// How many rows contribute a snapshot entry.
pub open spec fn spec_snapshot_count(rows: Seq<ConnModel>, exclude: u32) -> nat
    decreases rows.len(),
{
    if rows.len() == 0 {
        0
    } else {
        spec_snapshot_entry(rows[0], exclude).len() + spec_snapshot_count(
            rows.subrange(1, rows.len() as int),
            exclude,
        )
    }
}

/// The messages a new joiner finds queued: its `Welcome`, then one snapshot
/// `Position` per already-reported player.
pub open spec fn spec_join_queue(rows: Seq<ConnModel>, id: u32) -> Seq<ServerMessageModel> {
    seq![ServerMessageModel::Welcome { id }] + spec_snapshot(rows, id).map_values(
        |e: (u32, PlayerPosition)|
            ServerMessageModel::Position { id: e.0, x_bits: e.1.x_bits, y_bits: e.1.y_bits },
    )
}

/// Growing a registry by one row grows its snapshot by that row's entry.
proof fn lemma_snapshot_push(rows: Seq<ConnModel>, row: ConnModel, exclude: u32)
    ensures
        spec_snapshot(rows.push(row), exclude) == spec_snapshot(rows, exclude)
            + spec_snapshot_entry(row, exclude),
        spec_snapshot_count(rows.push(row), exclude) == spec_snapshot_count(rows, exclude)
            + spec_snapshot_entry(row, exclude).len(),
    decreases rows.len(),
{
    let all = rows.push(row);
    if rows.len() == 0 {
        let empty_rows = Seq::<ConnModel>::empty();
        assert(all.subrange(1, all.len() as int) =~= empty_rows);
        assert(spec_snapshot(empty_rows, exclude) == Seq::<(u32, PlayerPosition)>::empty());
        assert(spec_snapshot_count(empty_rows, exclude) == 0);
        assert(spec_snapshot(all, exclude) == spec_snapshot_entry(row, exclude) + spec_snapshot(
            empty_rows,
            exclude,
        ));
        assert(spec_snapshot(all, exclude) =~= spec_snapshot(rows, exclude)
            + spec_snapshot_entry(row, exclude));
    } else {
        let rest = rows.subrange(1, rows.len() as int);
        assert(all.subrange(1, all.len() as int) =~= rest.push(row));
        lemma_snapshot_push(rest, row, exclude);
        assert(spec_snapshot(all, exclude) == spec_snapshot_entry(rows[0], exclude)
            + spec_snapshot(rest.push(row), exclude));
        assert(spec_snapshot(rows, exclude) == spec_snapshot_entry(rows[0], exclude)
            + spec_snapshot(rest, exclude));
        assert(spec_snapshot(all, exclude) =~= spec_snapshot(rows, exclude)
            + spec_snapshot_entry(row, exclude));
        assert(spec_snapshot_count(all, exclude) == spec_snapshot_entry(rows[0], exclude).len()
            + spec_snapshot_count(rest.push(row), exclude));
        assert(spec_snapshot_count(rows, exclude) == spec_snapshot_entry(rows[0], exclude).len()
            + spec_snapshot_count(rest, exclude));
    }
}

/// The relay: connection registry, id counter, and broadcast fan-out.
pub struct Relay {
    next_id: u32,
    cap: usize,
    conns: Vec<Conn>,
}

impl View for Relay {
    type V = Seq<ConnModel>;

    closed spec fn view(&self) -> Seq<ConnModel> {
        self.conns@.map_values(|c: Conn| c@)
    }
}

impl Relay {
    /// The id the next accepted connection will get.
    pub closed spec fn fresh_id(self) -> u32 {
        self.next_id
    }

    /// The per-connection outbound queue bound broadcasts respect.
    pub closed spec fn spec_cap(self) -> nat {
        self.cap as nat
    }

    /// Registry well-formedness: every id was handed out by the counter, and
    /// no two rows share one.
    pub closed spec fn wf(self) -> bool {
        &&& forall|i: int| 0 <= i < self@.len() ==> (#[trigger] self@[i].id) < self.next_id
        &&& forall|i: int, j: int|
            0 <= i < j < self@.len() ==> (#[trigger] self@[i].id) != (#[trigger] self@[j].id)
    }

    /// An empty relay. `cap` bounds each connection's outbound queue during
    /// broadcasts; join-time messages are delivered directly and are not
    /// subject to it.
    pub fn new(cap: usize) -> (r: Relay)
        ensures
            r.wf(),
            r@ == Seq::<ConnModel>::empty(),
            r.fresh_id() == 1,
            r.spec_cap() == cap,
    {
        let r = Relay { next_id: 1, cap, conns: Vec::new() };
        proof {
            assert(r@ =~= Seq::<ConnModel>::empty());
        }
        r
    }

    /// Number of live connections.
    pub fn connection_count(&self) -> (n: usize)
        ensures
            n == self@.len(),
    {
        self.conns.len()
    }

    /// Index of the row with this id, if any.
    fn find_index(&self, id: u32) -> (r: Option<usize>)
        ensures
            match r {
                Some(i) => spec_find(self@, id) == i && i < self@.len(),
                None => spec_find(self@, id) == -1,
            },
    {
        proof {
            lemma_find_characterizes(self@, id);
        }
        let n = self.conns.len();
        let mut i: usize = 0;
        while i < n
            invariant
                i <= n,
                n == self@.len(),
                forall|j: int| 0 <= j < i ==> self@[j].id != id,
                spec_find(self@, id) >= 0 ==> self@[spec_find(self@, id)].id == id,
                spec_find(self@, id) >= 0 ==> forall|j: int|
                    0 <= j < spec_find(self@, id) ==> self@[j].id != id,
                spec_find(self@, id) < 0 ==> forall|j: int|
                    0 <= j < self@.len() ==> self@[j].id != id,
                -1 <= spec_find(self@, id) < self@.len(),
            decreases n - i,
        {
            proof {
                assert(self@[i as int] == self.conns@[i as int]@);
            }
            if self.conns[i].id == id {
                proof {
                    assert(self@[i as int].id == id);
                }
                return Some(i);
            }
            i = i + 1;
        }
        None
    }

    /// Whether an id is currently registered.
    pub fn is_registered(&self, id: u32) -> (r: bool)
        ensures
            r == spec_has(self@, id),
    {
        self.find_index(id).is_some()
    }

    /// The last position an id reported, if it is registered and has
    /// reported one.
    pub fn position_of(&self, id: u32) -> (r: Option<PlayerPosition>)
        ensures
            match r {
                Some(p) => spec_has(self@, id) && self@[spec_find(self@, id)].pos == Some(p),
                None => !spec_has(self@, id) || self@[spec_find(self@, id)].pos is None,
            },
    {
        match self.find_index(id) {
            Some(i) => self.conns[i].pos,
            None => None,
        }
    }

    /// Registers a new connection under a fresh id, with an empty outbound
    /// queue and no position yet. Returns `None` exactly when the id counter
    /// is exhausted, leaving the relay unchanged.
    pub fn register(&mut self) -> (r: Option<u32>)
        requires
            old(self).wf(),
        ensures
            final(self).wf(),
            final(self).spec_cap() == old(self).spec_cap(),
            match r {
                Some(id) => {
                    &&& id == old(self).fresh_id()
                    &&& !spec_has(old(self)@, id)
                    &&& final(self).fresh_id() == id + 1
                    &&& final(self)@ == old(self)@.push(
                        ConnModel { id, queue: Seq::empty(), pos: None },
                    )
                },
                None => {
                    &&& old(self).fresh_id() == u32::MAX
                    &&& final(self)@ == old(self)@
                    &&& final(self).fresh_id() == old(self).fresh_id()
                },
            },
    {
        if self.next_id == u32::MAX {
            return None;
        }
        let id = self.next_id;
        proof {
            lemma_find_characterizes(self@, id);
        }
        self.next_id = id + 1;
        let q: Vec<ServerMessage> = Vec::new();
        proof {
            assert(msg_models(q@) =~= Seq::<ServerMessageModel>::empty());
        }
        self.conns.push(Conn { id, queue: q, pos: None });
        proof {
            assert(self@ =~~= old(self)@.push(ConnModel { id, queue: Seq::empty(), pos: None }));
        }
        Some(id)
    }

    /// Upserts the last-known position of a registered id; a no-op when the
    /// id is absent (tolerates a disconnect racing a final update).
    pub fn update_position(&mut self, id: u32, pos: PlayerPosition)
        requires
            old(self).wf(),
        ensures
            final(self).wf(),
            final(self)@ == spec_set_pos(old(self)@, id, pos),
            final(self).fresh_id() == old(self).fresh_id(),
            final(self).spec_cap() == old(self).spec_cap(),
    {
        match self.find_index(id) {
            None => {
            },
            Some(i) => {
                let c = self.conns.remove(i);
                let updated = Conn { id: c.id, queue: c.queue, pos: Some(pos) };
                self.conns.insert(i, updated);
                proof {
                    lemma_find_characterizes(old(self)@, id);
                    assert(self@ =~~= spec_set_pos(old(self)@, id, pos));
                }
            },
        }
    }

    /// Removes an id's row — delivery queue and position together, in one
    /// step, so no reader ever sees one without the other. A no-op when the
    /// id is absent, which makes a second teardown harmless.
    pub fn unregister(&mut self, id: u32)
        requires
            old(self).wf(),
        ensures
            final(self).wf(),
            final(self)@ == spec_remove(old(self)@, id),
            spec_has(old(self)@, id) ==> final(self)@.len() == old(self)@.len() - 1,
            !spec_has(old(self)@, id) ==> final(self)@ == old(self)@,
            final(self).fresh_id() == old(self).fresh_id(),
            final(self).spec_cap() == old(self).spec_cap(),
    {
        match self.find_index(id) {
            None => {
            },
            Some(i) => {
                self.conns.remove(i);
                proof {
                    lemma_find_characterizes(old(self)@, id);
                    assert(self@ =~= spec_remove(old(self)@, id));
                }
            },
        }
    }

    /// Enqueues the message onto every registered connection's outbound
    /// queue except the excluded one's, dropping it for any recipient whose
    /// queue is at capacity (best-effort, at-most-once).
    pub fn broadcast(&mut self, m: &ServerMessage, exclude: Option<u32>)
        requires
            old(self).wf(),
        ensures
            final(self).wf(),
            final(self)@ == spec_broadcast(old(self)@, m@, exclude, old(self).spec_cap()),
            final(self).fresh_id() == old(self).fresh_id(),
            final(self).spec_cap() == old(self).spec_cap(),
    {
        let ghost target = spec_broadcast(old(self)@, m@, exclude, old(self).spec_cap());
        let n = self.conns.len();
        let mut i: usize = 0;
        while i < n
            invariant
                i <= n,
                n == self@.len(),
                self@.len() == old(self)@.len(),
                self.cap == old(self).cap,
                self.next_id == old(self).next_id,
                target == spec_broadcast(old(self)@, m@, exclude, old(self).spec_cap()),
                target.len() == old(self)@.len(),
                forall|j: int| 0 <= j < i ==> self@[j] == target[j],
                forall|j: int| i <= j < n ==> self@[j] == old(self)@[j],
            decreases n - i,
        {
            let excluded = match exclude {
                Some(e) => self.conns[i].id == e,
                None => false,
            };
            if !excluded && self.conns[i].queue.len() < self.cap {
                let mut c = self.conns.remove(i);
                c.queue.push(m.clone());
                proof {
                    assert(msg_models(c.queue@) =~= spec_push_bounded(
                        old(self)@[i as int].queue,
                        m@,
                        old(self).spec_cap(),
                    ));
                }
                self.conns.insert(i, c);
                proof {
                    assert(self@[i as int] == target[i as int]);
                }
            } else {
                proof {
                    assert(self@[i as int] == target[i as int]);
                }
            }
            i = i + 1;
        }
        proof {
            assert(self@ =~= target);
        }
    }

    /// A consistent point-in-time copy of every reported position, in
    /// registry order, one entry per id, skipping the excluded id.
    pub fn snapshot_positions(&self, exclude: u32) -> (r: Vec<(u32, PlayerPosition)>)
        ensures
            r@ == spec_snapshot(self@, exclude),
    {
        let n = self.conns.len();
        let mut out: Vec<(u32, PlayerPosition)> = Vec::new();
        let mut i: usize = 0;
        while i < n
            invariant
                i <= n,
                n == self@.len(),
                out@ == spec_snapshot(self@.subrange(0, i as int), exclude),
            decreases n - i,
        {
            proof {
                assert(self@.subrange(0, i as int + 1) =~= self@.subrange(0, i as int).push(
                    self@[i as int],
                ));
                lemma_snapshot_push(self@.subrange(0, i as int), self@[i as int], exclude);
            }
            match self.conns[i].pos {
                Some(p) => {
                    if self.conns[i].id != exclude {
                        out.push((self.conns[i].id, p));
                    }
                },
                None => {
                },
            }
            proof {
                assert(out@ =~= spec_snapshot(self@.subrange(0, i as int + 1), exclude));
            }
            i = i + 1;
        }
        proof {
            assert(self@.subrange(0, n as int) =~= self@);
        }
        out
    }

    /// Accepts one new connection: registers it (so a concurrent broadcast
    /// can no longer be missed), then delivers it its `Welcome` and one
    /// snapshot `Position` per player already present. Returns the new id,
    /// or `None` exactly when the id counter is exhausted.
    pub fn accept(&mut self) -> (r: Option<u32>)
        requires
            old(self).wf(),
        ensures
            final(self).wf(),
            final(self).spec_cap() == old(self).spec_cap(),
            match r {
                Some(id) => {
                    &&& id == old(self).fresh_id()
                    &&& !spec_has(old(self)@, id)
                    &&& final(self).fresh_id() == id + 1
                    &&& final(self)@ == old(self)@.push(
                        ConnModel { id, queue: spec_join_queue(old(self)@, id), pos: None },
                    )
                },
                None => {
                    &&& old(self).fresh_id() == u32::MAX
                    &&& final(self)@ == old(self)@
                },
            },
    {
        let id_opt = self.register();
        let id = match id_opt {
            None => {
                return None;
            },
            Some(id) => id,
        };
        let ghost blank = ConnModel { id, queue: Seq::empty(), pos: None };
        let ghost rows1 = self@;
        let ghost conns1 = self.conns@;
        let snap = self.snapshot_positions(id);
        proof {
            lemma_snapshot_push(old(self)@, blank, id);
            assert(spec_snapshot(self@, id) =~= spec_snapshot(old(self)@, id));
        }
        let n = self.conns.len();
        let c_opt = self.conns.pop();
        let mut c = match c_opt {
            Some(c) => c,
            None => {
                proof {
                    assert(false);
                }
                return None;
            },
        };
        proof {
            assert(n == old(self)@.len() + 1);
            assert(old(self)@.push(blank)[n - 1] == blank);
            assert(rows1[n - 1] == conns1[n - 1]@);
            assert(c@ == blank);
            assert forall|j: int|
                0 <= j < old(self)@.len() implies self.conns@.map_values(|x: Conn| x@)[j] == old(
                self,
            )@[j] by {
                assert(rows1[j] == conns1[j]@);
                assert(self.conns@[j] == conns1[j]);
                assert(rows1[j] == old(self)@[j]);
            }
            assert(self.conns@.map_values(|x: Conn| x@) =~= old(self)@);
        }
        c.queue.push(ServerMessage::Welcome { id });
        let ghost join_queue = spec_join_queue(old(self)@, id);
        proof {
            assert(c.queue@.len() == 1);
            assert(msg_models(c.queue@) =~= join_queue.subrange(0, 1));
        }
        let m = snap.len();
        let mut k: usize = 0;
        while k < m
            invariant
                k <= m,
                m == snap@.len(),
                snap@ == spec_snapshot(old(self)@, id),
                join_queue == spec_join_queue(old(self)@, id),
                join_queue.len() == 1 + m,
                c.id == id,
                c.pos is None,
                msg_models(c.queue@) == join_queue.subrange(0, k as int + 1),
            decreases m - k,
        {
            let (pid, p) = snap[k];
            let ghost q0 = c.queue@;
            c.queue.push(ServerMessage::Position { id: pid, x_bits: p.x_bits, y_bits: p.y_bits });
            proof {
                assert(join_queue[k as int + 1] == ServerMessageModel::Position {
                    id: pid,
                    x_bits: p.x_bits,
                    y_bits: p.y_bits,
                });
                assert(msg_models(q0).len() == k + 1);
                assert forall|j: int|
                    0 <= j < k + 2 implies msg_models(c.queue@)[j] == join_queue.subrange(
                    0,
                    k as int + 2,
                )[j] by {
                    if j < k + 1 {
                        assert(msg_models(q0)[j] == join_queue.subrange(0, k as int + 1)[j]);
                        assert(c.queue@[j] == q0[j]);
                    }
                }
                assert(msg_models(c.queue@) =~= join_queue.subrange(0, k as int + 2));
            }
            k = k + 1;
        }
        proof {
            assert(join_queue.subrange(0, join_queue.len() as int) =~= join_queue);
            assert(c@ =~= ConnModel { id, queue: join_queue, pos: None });
        }
        self.conns.push(c);
        proof {
            assert(self@ =~~= old(self)@.push(
                ConnModel { id, queue: spec_join_queue(old(self)@, id), pos: None },
            ));
        }
        Some(id)
    }

    /// The session ingress decision for one decoded message: a `Position`
    /// update is recorded and fanned out to everyone but its sender; chat is
    /// relayed to everyone but its sender, stamped with the sender's id.
    pub fn handle_message(&mut self, id: u32, m: ClientMessage)
        requires
            old(self).wf(),
        ensures
            final(self).wf(),
            final(self).fresh_id() == old(self).fresh_id(),
            final(self).spec_cap() == old(self).spec_cap(),
            match m@ {
                crate::msg::ClientMessageModel::Position { x_bits, y_bits } => final(self)@
                    == spec_broadcast(
                    spec_set_pos(old(self)@, id, PlayerPosition { x_bits, y_bits }),
                    ServerMessageModel::Position { id, x_bits, y_bits },
                    Some(id),
                    old(self).spec_cap(),
                ),
                crate::msg::ClientMessageModel::Chat { text } => final(self)@ == spec_broadcast(
                    old(self)@,
                    ServerMessageModel::Chat { from: id, text },
                    Some(id),
                    old(self).spec_cap(),
                ),
            },
    {
        match m {
            ClientMessage::Position { x_bits, y_bits } => {
                self.update_position(id, PlayerPosition { x_bits, y_bits });
                self.broadcast(&ServerMessage::Position { id, x_bits, y_bits }, Some(id));
            },
            ClientMessage::Chat { text } => {
                let out = ServerMessage::Chat { from: id, text };
                self.broadcast(&out, Some(id));
            },
        }
    }

    /// Session teardown: removes the id's row and tells every remaining
    /// connection it left. Runs at most once per id — a second call finds
    /// the id gone and changes nothing, so both pipelines of a session may
    /// trigger teardown independently.
    pub fn disconnect(&mut self, id: u32)
        requires
            old(self).wf(),
        ensures
            final(self).wf(),
            final(self).fresh_id() == old(self).fresh_id(),
            final(self).spec_cap() == old(self).spec_cap(),
            spec_has(old(self)@, id) ==> final(self)@ == spec_broadcast(
                spec_remove(old(self)@, id),
                ServerMessageModel::PlayerLeft { id },
                None,
                old(self).spec_cap(),
            ),
            !spec_has(old(self)@, id) ==> final(self)@ == old(self)@,
    {
        match self.find_index(id) {
            None => {
            },
            Some(_) => {
                self.unregister(id);
                self.broadcast(&ServerMessage::PlayerLeft { id }, None);
            },
        }
    }

    /// Takes everything queued for an id, leaving its queue empty; the
    /// caller writes the messages to that connection's transport. Returns
    /// nothing for an unregistered id.
    pub fn drain_outbound(&mut self, id: u32) -> (r: Vec<ServerMessage>)
        requires
            old(self).wf(),
        ensures
            final(self).wf(),
            final(self).fresh_id() == old(self).fresh_id(),
            final(self).spec_cap() == old(self).spec_cap(),
            spec_has(old(self)@, id) ==> {
                &&& msg_models(r@) == old(self)@[spec_find(old(self)@, id)].queue
                &&& final(self)@ == old(self)@.update(
                    spec_find(old(self)@, id),
                    ConnModel {
                        id,
                        queue: Seq::empty(),
                        pos: old(self)@[spec_find(old(self)@, id)].pos,
                    },
                )
            },
            !spec_has(old(self)@, id) ==> r@.len() == 0 && final(self)@ == old(self)@,
    {
        match self.find_index(id) {
            None => Vec::new(),
            Some(i) => {
                proof {
                    lemma_find_characterizes(old(self)@, id);
                }
                let c = self.conns.remove(i);
                let Conn { id: cid, queue, pos } = c;
                self.conns.insert(i, Conn { id: cid, queue: Vec::new(), pos });
                proof {
                    assert(msg_models(Seq::<ServerMessage>::empty()) =~= Seq::<
                        ServerMessageModel,
                    >::empty());
                    assert(self@ =~= old(self)@.update(
                        i as int,
                        ConnModel {
                            id,
                            queue: Seq::empty(),
                            pos: old(self)@[i as int].pos,
                        },
                    ));
                }
                queue
            },
        }
    }
}

} // verus!
