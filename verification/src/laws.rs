//! Registry-level laws, proved once and for all over the relay's model.
//!
//! Each proof function here states a property of the spec functions that the
//! relay's operations are contracted to implement, so it holds of every
//! reachable relay state and every sequence of operations.

use crate::msg::ServerMessageModel;
use crate::relay::{
    lemma_find_characterizes, spec_broadcast, spec_broadcast_row, spec_has, spec_join_queue,
    spec_remove, spec_snapshot, spec_snapshot_count, spec_snapshot_entry, ConnModel,
};
use vstd::prelude::*;

verus! {

/// A membership change seen by the registry: a session registering, or a
/// session unregistering a given id.
pub enum RegistryEvent {
    Join,
    Leave { id: u32 },
}

/// One event applied to the registry model, exactly as `Relay::accept` and
/// `Relay::unregister` are contracted to behave: a join registers the next
/// counter id (when the counter is not exhausted), a leave removes the id's
/// row if present and is otherwise a no-op.
pub open spec fn spec_apply_event(
    rows: Seq<ConnModel>,
    next: u32,
    e: RegistryEvent,
) -> (Seq<ConnModel>, u32) {
    match e {
        RegistryEvent::Join => if next < u32::MAX {
            (
                rows.push(ConnModel { id: next, queue: spec_join_queue(rows, next), pos: None }),
                (next + 1) as u32,
            )
        } else {
            (rows, next)
        },
        RegistryEvent::Leave { id } => (spec_remove(rows, id), next),
    }
}

/// The registry model after a whole sequence of membership events.
pub open spec fn spec_run_events(
    rows: Seq<ConnModel>,
    next: u32,
    evs: Seq<RegistryEvent>,
) -> (Seq<ConnModel>, u32)
    decreases evs.len(),
{
    if evs.len() == 0 {
        (rows, next)
    } else {
        let stepped = spec_apply_event(rows, next, evs[0]);
        spec_run_events(stepped.0, stepped.1, evs.subrange(1, evs.len() as int))
    }
}

/// How many events of the sequence register a session (joins that find the
/// id counter exhausted register nothing and are not counted).
pub open spec fn spec_effective_joins(rows: Seq<ConnModel>, next: u32, evs: Seq<RegistryEvent>) -> nat
    decreases evs.len(),
{
    if evs.len() == 0 {
        0
    } else {
        let here: nat = match evs[0] {
            RegistryEvent::Join => if next < u32::MAX {
                1
            } else {
                0
            },
            RegistryEvent::Leave { .. } => 0,
        };
        let stepped = spec_apply_event(rows, next, evs[0]);
        here + spec_effective_joins(stepped.0, stepped.1, evs.subrange(1, evs.len() as int))
    }
}

/// How many events of the sequence unregister a session (a leave whose id is
/// already gone removes nothing and is not counted).
pub open spec fn spec_effective_leaves(
    rows: Seq<ConnModel>,
    next: u32,
    evs: Seq<RegistryEvent>,
) -> nat
    decreases evs.len(),
{
    if evs.len() == 0 {
        0
    } else {
        let here: nat = match evs[0] {
            RegistryEvent::Join => 0,
            RegistryEvent::Leave { id } => if spec_has(rows, id) {
                1
            } else {
                0
            },
        };
        let stepped = spec_apply_event(rows, next, evs[0]);
        here + spec_effective_leaves(stepped.0, stepped.1, evs.subrange(1, evs.len() as int))
    }
}

/// Law: after any sequence of connect/disconnect events, the registry holds
/// exactly as many rows as sessions registered minus sessions unregistered —
/// no row leaks, and removing an id twice has no second effect.
pub proof fn lemma_registry_balance(rows: Seq<ConnModel>, next: u32, evs: Seq<RegistryEvent>)
    ensures
        spec_run_events(rows, next, evs).0.len() + spec_effective_leaves(rows, next, evs)
            == rows.len() + spec_effective_joins(rows, next, evs),
    decreases evs.len(),
{
    if evs.len() > 0 {
        let stepped = spec_apply_event(rows, next, evs[0]);
        match evs[0] {
            RegistryEvent::Join => {
            },
            RegistryEvent::Leave { id } => {
                lemma_find_characterizes(rows, id);
            },
        }
        lemma_registry_balance(stepped.0, stepped.1, evs.subrange(1, evs.len() as int));
    }
}

/// Law: a broadcast that excludes a sender never touches that sender's own
/// outbound queue, whatever the registry holds; every other row keeps its
/// id and position, and its queue either gains exactly the message at the
/// end (when it has room) or stays as it was (when it is full).
pub proof fn lemma_broadcast_excludes_sender(
    rows: Seq<ConnModel>,
    m: ServerMessageModel,
    exclude: u32,
    cap: nat,
)
    ensures
        spec_broadcast(rows, m, Some(exclude), cap).len() == rows.len(),
        forall|i: int|
            0 <= i < rows.len() && rows[i].id == exclude ==> #[trigger] spec_broadcast(
                rows,
                m,
                Some(exclude),
                cap,
            )[i] == rows[i],
        forall|i: int|
            0 <= i < rows.len() && rows[i].id != exclude && rows[i].queue.len() < cap
                ==> #[trigger] spec_broadcast(rows, m, Some(exclude), cap)[i] == (ConnModel {
                id: rows[i].id,
                queue: rows[i].queue.push(m),
                pos: rows[i].pos,
            }),
        forall|i: int|
            0 <= i < rows.len() && rows[i].id != exclude && rows[i].queue.len() >= cap
                ==> #[trigger] spec_broadcast(rows, m, Some(exclude), cap)[i] == rows[i],
{
    assert forall|i: int| 0 <= i < rows.len() implies (#[trigger] spec_broadcast(
        rows,
        m,
        Some(exclude),
        cap,
    )[i] == spec_broadcast_row(rows[i], m, Some(exclude), cap)) by {
    }
}

/// Law: the snapshot a joiner receives has exactly one `(id, position)`
/// entry per other registered connection that has reported a position — no
/// self-entry, no duplicate ids, nothing invented and nothing missed.
#[verifier::spinoff_prover]
#[verifier::rlimit(80)]
pub proof fn lemma_snapshot_entries(rows: Seq<ConnModel>, exclude: u32)
    requires
        forall|i: int, j: int|
            0 <= i < j < rows.len() ==> (#[trigger] rows[i].id) != (#[trigger] rows[j].id),
    ensures
        spec_snapshot(rows, exclude).len() == spec_snapshot_count(rows, exclude),
        forall|j: int|
            0 <= j < spec_snapshot(rows, exclude).len() ==> (#[trigger] spec_snapshot(
                rows,
                exclude,
            )[j]).0 != exclude,
        forall|j: int|
            0 <= j < spec_snapshot(rows, exclude).len() ==> exists|i: int|
                0 <= i < rows.len() && rows[i].id == (#[trigger] spec_snapshot(rows, exclude)[j]).0
                    && rows[i].pos == Some(spec_snapshot(rows, exclude)[j].1),
        forall|i: int|
            0 <= i < rows.len() && (#[trigger] rows[i].id) != exclude && rows[i].pos is Some
                ==> exists|j: int|
                0 <= j < spec_snapshot(rows, exclude).len() && (#[trigger] spec_snapshot(
                    rows,
                    exclude,
                )[j]).0 == rows[i].id && Some(spec_snapshot(rows, exclude)[j].1) == rows[i].pos,
        forall|j1: int, j2: int|
            0 <= j1 < j2 < spec_snapshot(rows, exclude).len() ==> (#[trigger] spec_snapshot(
                rows,
                exclude,
            )[j1]).0 != (#[trigger] spec_snapshot(rows, exclude)[j2]).0,
    decreases rows.len(),
{
    let snap = spec_snapshot(rows, exclude);
    if rows.len() == 0 {
    } else {
        let rest = rows.subrange(1, rows.len() as int);
        let e0 = spec_snapshot_entry(rows[0], exclude);
        let snap_rest = spec_snapshot(rest, exclude);
        assert(forall|i: int| 0 <= i < rest.len() ==> rest[i] == rows[i + 1]);
        lemma_snapshot_entries(rest, exclude);
        assert(snap == e0 + snap_rest);
        assert(snap.len() == spec_snapshot_count(rows, exclude)) by {
            assert(spec_snapshot_count(rows, exclude) == e0.len() + spec_snapshot_count(
                rest,
                exclude,
            ));
        }
        // every entry avoids the excluded id and names a real row
        assert forall|j: int| 0 <= j < snap.len() implies (#[trigger] snap[j]).0 != exclude
            && exists|i: int|
            0 <= i < rows.len() && rows[i].id == snap[j].0 && rows[i].pos == Some(snap[j].1) by {
            if j < e0.len() {
                assert(snap[j] == e0[0]);
                assert(rows[0].id == snap[j].0 && rows[0].pos == Some(snap[j].1));
            } else {
                let jr = j - e0.len();
                assert(snap[j] == snap_rest[jr]);
                let i0 = choose|i: int|
                    0 <= i < rest.len() && rest[i].id == snap_rest[jr].0 && rest[i].pos == Some(
                        snap_rest[jr].1,
                    );
                assert(rows[i0 + 1].id == snap[j].0 && rows[i0 + 1].pos == Some(snap[j].1));
            }
        }
        // every other reported row appears
        assert forall|i: int|
            0 <= i < rows.len() && (#[trigger] rows[i].id) != exclude && rows[i].pos is Some
            implies exists|j: int|
            0 <= j < snap.len() && (#[trigger] snap[j]).0 == rows[i].id && Some(snap[j].1)
                == rows[i].pos by {
            if i == 0 {
                assert(e0.len() == 1);
                assert(snap[0] == e0[0]);
                assert(snap[0].0 == rows[0].id && Some(snap[0].1) == rows[0].pos);
            } else {
                assert(rest[i - 1] == rows[i]);
                let j0 = choose|j: int|
                    0 <= j < snap_rest.len() && snap_rest[j].0 == rest[i - 1].id && Some(
                        snap_rest[j].1,
                    ) == rest[i - 1].pos;
                assert(snap[j0 + e0.len()] == snap_rest[j0]);
                assert(snap[j0 + e0.len()].0 == rows[i].id && Some(snap[j0 + e0.len()].1)
                    == rows[i].pos);
            }
        }
        // no id appears twice
        assert forall|j1: int, j2: int| 0 <= j1 < j2 < snap.len() implies (#[trigger] snap[j1]).0
            != (#[trigger] snap[j2]).0 by {
            if j1 < e0.len() {
                assert(snap[j1] == e0[0]);
                let jr = j2 - e0.len();
                assert(snap[j2] == snap_rest[jr]);
                let i0 = choose|i: int|
                    0 <= i < rest.len() && rest[i].id == snap_rest[jr].0 && rest[i].pos == Some(
                        snap_rest[jr].1,
                    );
                assert(rows[0].id != rows[i0 + 1].id);
            } else {
                assert(snap[j1] == snap_rest[j1 - e0.len()]);
                assert(snap[j2] == snap_rest[j2 - e0.len()]);
            }
        }
    }
}

} // verus!
