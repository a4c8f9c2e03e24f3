//! Client-side reconciliation: applying inbound relay messages to the
//! local picture of the world.
//!
//! The client keeps the id the relay assigned it and a table of remote
//! players' last-known positions. Every update replaces the stored value
//! wholesale — no interpolation, no merging — so duplicate or re-ordered
//! position reports are harmless: the last one applied wins.

use crate::msg::{PlayerPosition, ServerMessage, ServerMessageModel};
use vstd::prelude::*;

verus! {

/// Model of the reconciliation state: who we are, and where everyone else
/// last was.
#[verifier::ext_equal]
pub struct ClientStateModel {
    pub my_id: Option<u32>,
    pub remote: Map<u32, PlayerPosition>,
}

/// The reconciliation state a message applies to, as
/// [`ClientState::apply_message`] is contracted to change it.
pub open spec fn spec_apply(st: ClientStateModel, m: ServerMessageModel) -> ClientStateModel {
    match m {
        ServerMessageModel::Welcome { id } => ClientStateModel {
            my_id: Some(id),
            remote: st.remote,
        },
        ServerMessageModel::Position { id, x_bits, y_bits } => if st.my_id == Some(id) {
            st
        } else {
            ClientStateModel {
                my_id: st.my_id,
                remote: st.remote.insert(id, PlayerPosition { x_bits, y_bits }),
            }
        },
        ServerMessageModel::PlayerLeft { id } => ClientStateModel {
            my_id: st.my_id,
            remote: st.remote.remove(id),
        },
        ServerMessageModel::ClientLeft { id } => ClientStateModel {
            my_id: st.my_id,
            remote: st.remote.remove(id),
        },
        ServerMessageModel::ClientJoined { .. } => st,
        ServerMessageModel::Chat { .. } => st,
    }
}

/// The reconciliation state after a whole sequence of inbound messages.
pub open spec fn spec_apply_all(st: ClientStateModel, ms: Seq<ServerMessageModel>) -> ClientStateModel
    decreases ms.len(),
{
    if ms.len() == 0 {
        st
    } else {
        spec_apply_all(spec_apply(st, ms[0]), ms.subrange(1, ms.len() as int))
    }
}

/// Applying one more message continues the fold.
pub proof fn lemma_apply_all_push(st: ClientStateModel, ms: Seq<ServerMessageModel>, m: ServerMessageModel)
    ensures
        spec_apply_all(st, ms.push(m)) == spec_apply(spec_apply_all(st, ms), m),
    decreases ms.len(),
{
    let all = ms.push(m);
    if ms.len() == 0 {
        assert(all[0] == m);
        assert(all.subrange(1, all.len() as int) =~= Seq::<ServerMessageModel>::empty());
        assert(spec_apply_all(spec_apply(st, m), Seq::<ServerMessageModel>::empty()) == spec_apply(
            st,
            m,
        ));
        assert(spec_apply_all(st, Seq::<ServerMessageModel>::empty()) == st);
        assert(ms =~= Seq::<ServerMessageModel>::empty());
    } else {
        assert(all[0] == ms[0]);
        assert(all.subrange(1, all.len() as int) =~= ms.subrange(1, ms.len() as int).push(m));
        lemma_apply_all_push(spec_apply(st, ms[0]), ms.subrange(1, ms.len() as int), m);
        assert(spec_apply_all(st, all) == spec_apply_all(spec_apply(st, all[0]), all.subrange(
            1,
            all.len() as int,
        )));
    }
}

/// Law: a `Position` report is an idempotent, last-value-wins upsert —
/// applying one report after another for the same id leaves exactly the
/// later value, and applying the same report twice is the same as applying
/// it once.
pub proof fn lemma_position_update_idempotent(
    st: ClientStateModel,
    id: u32,
    first: PlayerPosition,
    second: PlayerPosition,
)
    ensures
        spec_apply(
            spec_apply(st, ServerMessageModel::Position { id, x_bits: first.x_bits, y_bits: first.y_bits }),
            ServerMessageModel::Position { id, x_bits: second.x_bits, y_bits: second.y_bits },
        ) == spec_apply(
            st,
            ServerMessageModel::Position { id, x_bits: second.x_bits, y_bits: second.y_bits },
        ),
{
    if st.my_id != Some(id) {
        let once = spec_apply(
            st,
            ServerMessageModel::Position { id, x_bits: second.x_bits, y_bits: second.y_bits },
        );
        let twice = spec_apply(
            spec_apply(st, ServerMessageModel::Position { id, x_bits: first.x_bits, y_bits: first.y_bits }),
            ServerMessageModel::Position { id, x_bits: second.x_bits, y_bits: second.y_bits },
        );
        assert(twice.remote =~= once.remote);
        assert(twice =~= once);
    }
}

/// The map a key/position table stands for.
pub open spec fn pairs_to_map(s: Seq<(u32, PlayerPosition)>) -> Map<u32, PlayerPosition>
    decreases s.len(),
{
    if s.len() == 0 {
        Map::empty()
    } else {
        pairs_to_map(s.drop_last()).insert(s.last().0, s.last().1)
    }
}

/// Which keys a table holds, and what they map to, when no key repeats.
proof fn lemma_pairs_to_map(s: Seq<(u32, PlayerPosition)>)
    ensures
        forall|k: u32| pairs_to_map(s).dom().contains(k) <==> exists|i: int|
            0 <= i < s.len() && (#[trigger] s[i]).0 == k,
        (forall|i: int, j: int| 0 <= i < j < s.len() ==> (#[trigger] s[i]).0 != (#[trigger] s[j]).0)
            ==> forall|i: int|
            0 <= i < s.len() ==> pairs_to_map(s)[(#[trigger] s[i]).0] == s[i].1,
    decreases s.len(),
{
    if s.len() > 0 {
        lemma_pairs_to_map(s.drop_last());
        assert(forall|i: int| 0 <= i < s.len() - 1 ==> s.drop_last()[i] == s[i]);
        assert forall|k: u32| pairs_to_map(s).dom().contains(k) implies exists|i: int|
            0 <= i < s.len() && (#[trigger] s[i]).0 == k by {
            if k != s.last().0 {
                assert(pairs_to_map(s.drop_last()).dom().contains(k));
                let i0 = choose|i: int|
                    0 <= i < s.drop_last().len() && (#[trigger] s.drop_last()[i]).0 == k;
                assert(s[i0].0 == k);
            } else {
                assert(s[s.len() - 1].0 == k);
            }
        }
        assert forall|k: u32| (exists|i: int| 0 <= i < s.len() && (#[trigger] s[i]).0 == k)
            implies pairs_to_map(s).dom().contains(k) by {
            let i0 = choose|i: int| 0 <= i < s.len() && (#[trigger] s[i]).0 == k;
            if i0 < s.len() - 1 {
                assert(s.drop_last()[i0].0 == k);
                assert(pairs_to_map(s.drop_last()).dom().contains(k));
            }
        }
    }
}

/// The size of the table's map, when no key repeats.
proof fn lemma_pairs_to_map_len(s: Seq<(u32, PlayerPosition)>)
    requires
        forall|i: int, j: int| 0 <= i < j < s.len() ==> (#[trigger] s[i]).0 != (#[trigger] s[j]).0,
    ensures
        pairs_to_map(s).dom().finite(),
        pairs_to_map(s).dom().len() == s.len(),
    decreases s.len(),
{
    if s.len() > 0 {
        let prefix = s.drop_last();
        assert(forall|i: int| 0 <= i < prefix.len() ==> prefix[i] == s[i]);
        lemma_pairs_to_map_len(prefix);
        lemma_pairs_to_map(prefix);
        assert(!pairs_to_map(prefix).dom().contains(s.last().0));
        vstd::set::axiom_set_insert_len(pairs_to_map(prefix).dom(), s.last().0);
        assert(pairs_to_map(s).dom() =~= pairs_to_map(prefix).dom().insert(s.last().0));
    }
}

/// The client's local reconciliation state.
pub struct ClientState {
    my_id: Option<u32>,
    remote: Vec<(u32, PlayerPosition)>,
}

impl View for ClientState {
    type V = ClientStateModel;

    closed spec fn view(&self) -> ClientStateModel {
        ClientStateModel { my_id: self.my_id, remote: pairs_to_map(self.remote@) }
    }
}

impl ClientState {
    /// No key appears twice in the table.
    pub closed spec fn wf(self) -> bool {
        forall|i: int, j: int|
            0 <= i < j < self.remote@.len() ==> (#[trigger] self.remote@[i]).0 != (
            #[trigger] self.remote@[j]).0
    }

    /// A fresh client: no identity assigned, nobody else known.
    pub fn new() -> (r: ClientState)
        ensures
            r.wf(),
            r@ == (ClientStateModel { my_id: None, remote: Map::<u32, PlayerPosition>::empty() }),
    {
        let r = ClientState { my_id: None, remote: Vec::new() };
        proof {
            assert(r@ =~~= ClientStateModel {
                my_id: None,
                remote: Map::<u32, PlayerPosition>::empty(),
            });
        }
        r
    }

    /// The id the relay assigned this client, once its `Welcome` arrived.
    pub fn player_id(&self) -> (r: Option<u32>)
        ensures
            r == self@.my_id,
    {
        self.my_id
    }

    /// How many remote players are currently known.
    pub fn remote_count(&self) -> (n: usize)
        requires
            self.wf(),
        ensures
            n == self@.remote.dom().len(),
    {
        proof {
            lemma_pairs_to_map_len(self.remote@);
        }
        self.remote.len()
    }

    /// Index of a remote player's table entry.
    fn find_remote(&self, id: u32) -> (r: Option<usize>)
        ensures
            match r {
                Some(i) => i < self.remote@.len() && self.remote@[i as int].0 == id,
                None => forall|i: int| 0 <= i < self.remote@.len() ==> (#[trigger] self.remote@[i]).0 != id,
            },
    {
        let n = self.remote.len();
        let mut i: usize = 0;
        while i < n
            invariant
                i <= n,
                n == self.remote@.len(),
                forall|j: int| 0 <= j < i ==> (#[trigger] self.remote@[j]).0 != id,
            decreases n - i,
        {
            if self.remote[i].0 == id {
                return Some(i);
            }
            i = i + 1;
        }
        None
    }

    /// A remote player's last-known position, if one is stored.
    pub fn remote_position(&self, id: u32) -> (r: Option<PlayerPosition>)
        requires
            self.wf(),
        ensures
            match r {
                Some(p) => self@.remote.dom().contains(id) && self@.remote[id] == p,
                None => !self@.remote.dom().contains(id),
            },
    {
        proof {
            lemma_pairs_to_map(self.remote@);
        }
        match self.find_remote(id) {
            Some(i) => Some(self.remote[i].1),
            None => None,
        }
    }

    /// Applies one inbound message: `Welcome` fixes this client's identity;
    /// a `Position` for anyone else upserts the remote table (a report about
    /// this client itself is ignored — it is self-authoritative); a
    /// departure notice removes the entry; a join notice and chat leave the
    /// table untouched.
    pub fn apply_message(&mut self, m: &ServerMessage)
        requires
            old(self).wf(),
        ensures
            final(self).wf(),
            final(self)@ == spec_apply(old(self)@, m@),
    {
        match m {
            ServerMessage::Welcome { id } => {
                self.my_id = Some(*id);
            },
            ServerMessage::Position { id, x_bits, y_bits } => {
                let is_self = match self.my_id {
                    Some(me) => me == *id,
                    None => false,
                };
                if !is_self {
                    self.upsert_remote(*id, PlayerPosition { x_bits: *x_bits, y_bits: *y_bits });
                }
            },
            ServerMessage::PlayerLeft { id } => {
                self.remove_remote(*id);
            },
            ServerMessage::ClientLeft { id } => {
                self.remove_remote(*id);
            },
            ServerMessage::ClientJoined { .. } => {
            },
            ServerMessage::Chat { .. } => {
            },
        }
    }

    /// Stores a position wholesale, replacing any entry the id already has.
    fn upsert_remote(&mut self, id: u32, pos: PlayerPosition)
        requires
            old(self).wf(),
        ensures
            final(self).wf(),
            final(self)@ == (ClientStateModel {
                my_id: old(self)@.my_id,
                remote: old(self)@.remote.insert(id, pos),
            }),
    {
        proof {
            lemma_pairs_to_map(self.remote@);
        }
        match self.find_remote(id) {
            Some(i) => {
                self.remote.remove(i);
                proof {
                    lemma_pairs_remove(old(self).remote@, i as int);
                }
                self.remote.push((id, pos));
                proof {
                    let shorter = old(self).remote@.remove(i as int);
                    assert(shorter.push((id, pos)).drop_last() =~= shorter);
                    lemma_pairs_to_map(shorter);
                    assert(pairs_to_map(self.remote@) =~= old(self)@.remote.insert(id, pos));
                    assert(self@ =~~= ClientStateModel {
                        my_id: old(self)@.my_id,
                        remote: old(self)@.remote.insert(id, pos),
                    });
                }
            },
            None => {
                self.remote.push((id, pos));
                proof {
                    assert(self.remote@.drop_last() =~= old(self).remote@);
                    assert(self@ =~~= ClientStateModel {
                        my_id: old(self)@.my_id,
                        remote: old(self)@.remote.insert(id, pos),
                    });
                }
            },
        }
    }

    /// Drops an id's entry; a no-op when none is stored.
    fn remove_remote(&mut self, id: u32)
        requires
            old(self).wf(),
        ensures
            final(self).wf(),
            final(self)@ == (ClientStateModel {
                my_id: old(self)@.my_id,
                remote: old(self)@.remote.remove(id),
            }),
    {
        proof {
            lemma_pairs_to_map(self.remote@);
        }
        match self.find_remote(id) {
            Some(i) => {
                self.remote.remove(i);
                proof {
                    lemma_pairs_remove(old(self).remote@, i as int);
                    assert(self@ =~~= ClientStateModel {
                        my_id: old(self)@.my_id,
                        remote: old(self)@.remote.remove(id),
                    });
                }
            },
            None => {
                proof {
                    assert(old(self)@.remote.remove(id) =~= old(self)@.remote);
                    assert(self@ =~~= ClientStateModel {
                        my_id: old(self)@.my_id,
                        remote: old(self)@.remote.remove(id),
                    });
                }
            },
        }
    }
}

/// Removing one entry removes exactly its key from the map, when no key
/// repeats.
proof fn lemma_pairs_remove(s: Seq<(u32, PlayerPosition)>, i: int)
    requires
        forall|a: int, b: int| 0 <= a < b < s.len() ==> (#[trigger] s[a]).0 != (#[trigger] s[b]).0,
        0 <= i < s.len(),
    ensures
        pairs_to_map(s.remove(i)) == pairs_to_map(s).remove(s[i].0),
    decreases s.len(),
{
    lemma_pairs_to_map(s);
    let shorter = s.remove(i);
    if i == s.len() - 1 {
        assert(shorter =~= s.drop_last());
        lemma_pairs_to_map(s.drop_last());
        assert(!pairs_to_map(s.drop_last()).dom().contains(s.last().0));
        assert(pairs_to_map(s.drop_last()).remove(s.last().0) =~= pairs_to_map(s.drop_last()));
        assert(pairs_to_map(s).remove(s[i].0) =~= pairs_to_map(s.drop_last()));
    } else {
        assert(shorter.drop_last() =~= s.drop_last().remove(i));
        assert(shorter.last() == s.last());
        assert(forall|a: int| 0 <= a < s.len() - 1 ==> s.drop_last()[a] == s[a]);
        lemma_pairs_remove(s.drop_last(), i);
        assert(pairs_to_map(shorter) == pairs_to_map(s.drop_last()).remove(s[i].0).insert(
            s.last().0,
            s.last().1,
        ));
        assert(s[i].0 != s.last().0);
        assert(pairs_to_map(s.drop_last()).remove(s[i].0).insert(s.last().0, s.last().1)
            =~= pairs_to_map(s.drop_last()).insert(s.last().0, s.last().1).remove(s[i].0));
    }
}

} // verus!
