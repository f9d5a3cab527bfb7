use vstd::prelude::*;

use crate::connected_player::ConnectedPlayer;
use crate::connection_id::ConnectionId;

verus! {

/// The counter value after `id`: one more, wrapping to zero after the largest.
pub open spec fn following_id(id: u64) -> u64 {
    if id == u64::MAX {
        0
    } else {
        (id + 1) as u64
    }
}

/// The position of the entry with this handle.
pub open spec fn entry_index(entries: Seq<(u64, ConnectedPlayer)>, id: u64) -> Option<int>
    decreases entries.len(),
{
    if entries.len() == 0 {
        None
    } else if entries.last().0 == id {
        Some(entries.len() - 1)
    } else {
        entry_index(entries.drop_last(), id)
    }
}

/// Whether no two entries share a handle.
pub open spec fn handles_distinct(entries: Seq<(u64, ConnectedPlayer)>) -> bool {
    forall|i: int, j: int|
        0 <= i < entries.len() && 0 <= j < entries.len() && i != j ==> #[trigger] entries[i].0
            != #[trigger] entries[j].0
}

/// The entries without the one holding `id`, if there is one.
pub open spec fn without_entry(entries: Seq<(u64, ConnectedPlayer)>, id: u64) -> Seq<
    (u64, ConnectedPlayer),
> {
    match entry_index(entries, id) {
        Some(index) => entries.remove(index),
        None => entries,
    }
}

/// Everyone currently past the login phase, in the order they joined.
///
/// Each player is keyed by a handle drawn from a counter, never by UUID: in offline mode
/// a UUID is derived from the username, so two players with the same name would collide.
#[derive(Debug)]
pub struct ConnectionRegistry {
    players: Vec<(ConnectionId, ConnectedPlayer)>,
    next_id: u64,
}

/// The handles and players of a list of entries.
pub open spec fn entries_of(players: Seq<(ConnectionId, ConnectedPlayer)>) -> Seq<(u64, ConnectedPlayer)> {
    players.map_values(|entry: (ConnectionId, ConnectedPlayer)| (entry.0@, entry.1))
}

impl View for ConnectionRegistry {
    /// The handles and players online, in joining order, and the next handle to give out.
    type V = (Seq<(u64, ConnectedPlayer)>, u64);

    closed spec fn view(&self) -> (Seq<(u64, ConnectedPlayer)>, u64) {
        (entries_of(self.players@), self.next_id)
    }
}

proof fn lemma_entry_index(entries: Seq<(u64, ConnectedPlayer)>, id: u64)
    ensures
        match entry_index(entries, id) {
            Some(index) => 0 <= index < entries.len() && entries[index].0 == id,
            None => forall|i: int| 0 <= i < entries.len() ==> #[trigger] entries[i].0 != id,
        },
    decreases entries.len(),
{
    if entries.len() > 0 && entries.last().0 != id {
        lemma_entry_index(entries.drop_last(), id);
        if entry_index(entries, id) is None {
            assert forall|i: int| 0 <= i < entries.len() implies #[trigger] entries[i].0 != id by {
                if i < entries.len() - 1 {
                    assert(entries[i] == entries.drop_last()[i]);
                }
            }
        }
    }
}

/// Takes the entry holding `id` out of a list whose handles are distinct.
fn remove_entry(players: &mut Vec<(ConnectionId, ConnectedPlayer)>, id: ConnectionId) -> (removed: Option<
    ConnectedPlayer,
>)
    requires
        handles_distinct(entries_of(old(players)@)),
    ensures
        handles_distinct(entries_of(final(players)@)),
        entries_of(final(players)@) == without_entry(entries_of(old(players)@), id@),
        match entry_index(entries_of(old(players)@), id@) {
            Some(index) => removed == Some(entries_of(old(players)@)[index].1),
            None => removed is None,
        },
{
    let ghost entries = entries_of(players@);
    proof {
        lemma_entry_index(entries, id@);
    }
    let mut index: usize = players.len();
    proof {
        assert(entries.take(index as int) =~= entries);
    }
    while index > 0
        invariant
            0 <= index <= players@.len(),
            entries_of(players@) == entries,
            entries == entries_of(old(players)@),
            handles_distinct(entries),
            entries.len() == players@.len(),
            entry_index(entries, id@) == entry_index(entries.take(index as int), id@),
        decreases index,
    {
        proof {
            assert(entries.take(index as int).drop_last() =~= entries.take(index - 1));
            assert(entries.take(index as int).last() == entries[index - 1]);
            assert(entries[index - 1].0 == players@[index - 1].0@);
        }
        if players[index - 1].0.value() == id.value() {
            let entry = players.remove(index - 1);
            proof {
                assert(entries_of(players@) =~= entries.remove(index - 1));
                assert forall|i: int, j: int|
                    0 <= i < entries_of(players@).len() && 0 <= j < entries_of(players@).len() && i
                        != j implies #[trigger] entries_of(players@)[i].0
                    != #[trigger] entries_of(players@)[j].0 by {
                    let a = if i < index - 1 { i } else { i + 1 };
                    let b = if j < index - 1 { j } else { j + 1 };
                    assert(entries_of(players@)[i] == entries[a] && entries_of(players@)[j] == entries[b]);
                }
            }
            return Some(entry.1);
        }
        index -= 1;
    }
    proof {
        assert(entries.take(0) =~= Seq::<(u64, ConnectedPlayer)>::empty());
    }
    None
}

impl ConnectionRegistry {
    /// No two players online share a handle.
    #[verifier::type_invariant]
    spec fn well_formed(self) -> bool {
        handles_distinct(entries_of(self.players@))
    }

    pub fn empty() -> (registry: ConnectionRegistry)
        ensures
            registry@ == (Seq::<(u64, ConnectedPlayer)>::empty(), 0u64),
    {
        let players: Vec<(ConnectionId, ConnectedPlayer)> = Vec::new();
        proof {
            assert(entries_of(players@) =~= Seq::<(u64, ConnectedPlayer)>::empty());
        }
        ConnectionRegistry { players, next_id: 0 }
    }

    /// How many players are online.
    pub fn count(&self) -> (count: usize)
        ensures
            count == self@.0.len(),
    {
        self.players.len()
    }

    /// The names of the players online, in joining order; a name appears once for each
    /// connection holding it.
    pub fn usernames(&self) -> (names: Vec<String>)
        ensures
            names@.len() == self@.0.len(),
            forall|i: int| 0 <= i < names@.len() ==> #[trigger] names@[i] == self@.0[i].1.username,
    {
        let mut names: Vec<String> = Vec::new();
        let mut index: usize = 0;
        while index < self.players.len()
            invariant
                0 <= index <= self@.0.len(),
                self@.0.len() == self.players@.len(),
                names@.len() == index,
                forall|i: int| 0 <= i < index ==> #[trigger] names@[i] == self@.0[i].1.username,
            decreases self.players@.len() - index,
        {
            names.push(self.players[index].1.username.clone());
            index += 1;
        }
        names
    }

    /// Records a player as online and returns the handle used to remove them again.
    ///
    /// The handle is the counter's next value. Should the counter ever come round to a
    /// handle still in use, the new player takes that entry's place.
    pub fn add(&mut self, player: ConnectedPlayer) -> (id: ConnectionId)
        ensures
            id@ == old(self)@.1,
            final(self)@.1 == following_id(old(self)@.1),
            final(self)@.0 == without_entry(old(self)@.0, old(self)@.1).push((old(self)@.1, player)),
    {
        proof {
            use_type_invariant(&*self);
        }
        let id = ConnectionId::new(self.next_id);
        let ghost before = self@.0;
        let mut players: Vec<(ConnectionId, ConnectedPlayer)> = Vec::new();
        proof {
            assert(entries_of(players@) =~= Seq::<(u64, ConnectedPlayer)>::empty());
        }
        std::mem::swap(&mut players, &mut self.players);
        let _replaced = remove_entry(&mut players, id);
        let ghost kept = entries_of(players@);
        let next = if self.next_id == u64::MAX {
            0
        } else {
            self.next_id + 1
        };
        self.next_id = next;
        proof {
            lemma_remove_is_final(before, id@);
            lemma_entry_index(kept, id@);
        }
        players.push((id, player));
        proof {
            assert(entries_of(players@) =~= kept.push((id@, player)));
            assert forall|i: int, j: int|
                0 <= i < entries_of(players@).len() && 0 <= j < entries_of(players@).len() && i != j
                    implies #[trigger] entries_of(players@)[i].0 != #[trigger] entries_of(players@)[j].0 by {
                if i < kept.len() && j < kept.len() {
                    assert(entries_of(players@)[i] == kept[i] && entries_of(players@)[j] == kept[j]);
                } else if i < kept.len() {
                    assert(entries_of(players@)[i] == kept[i]);
                    assert(kept[i].0 != id@);
                } else {
                    assert(entries_of(players@)[j] == kept[j]);
                    assert(kept[j].0 != id@);
                }
            }
        }
        self.players = players;
        id
    }

    /// Takes a player off the online list; `None` when the handle holds no one, as after
    /// a second removal.
    pub fn remove(&mut self, id: ConnectionId) -> (removed: Option<ConnectedPlayer>)
        ensures
            final(self)@.1 == old(self)@.1,
            final(self)@.0 == without_entry(old(self)@.0, id@),
            match entry_index(old(self)@.0, id@) {
                Some(index) => removed == Some(old(self)@.0[index].1),
                None => removed is None,
            },
    {
        proof {
            use_type_invariant(&*self);
        }
        let mut players: Vec<(ConnectionId, ConnectedPlayer)> = Vec::new();
        proof {
            assert(entries_of(players@) =~= Seq::<(u64, ConnectedPlayer)>::empty());
        }
        std::mem::swap(&mut players, &mut self.players);
        let removed = remove_entry(&mut players, id);
        self.players = players;
        removed
    }
}

/// A player added under a fresh handle is counted, and removing that handle gives the
/// same player back and leaves the registry as it was.
pub proof fn lemma_add_then_remove(
    entries: Seq<(u64, ConnectedPlayer)>,
    next: u64,
    player: ConnectedPlayer,
)
    requires
        entry_index(entries, next) is None,
    ensures
        without_entry(entries, next).push((next, player)).len() == entries.len() + 1,
        entry_index(without_entry(entries, next).push((next, player)), next) == Some(
            entries.len() as int,
        ),
        without_entry(without_entry(entries, next).push((next, player)), next) == entries,
{
    let added = entries.push((next, player));
    assert(added.drop_last() =~= entries);
    assert(added.remove(entries.len() as int) =~= entries);
}

/// Once a handle has been removed, removing it again changes nothing and returns nothing.
pub proof fn lemma_remove_is_final(entries: Seq<(u64, ConnectedPlayer)>, id: u64)
    requires
        handles_distinct(entries),
    ensures
        entry_index(without_entry(entries, id), id) is None,
        without_entry(without_entry(entries, id), id) == without_entry(entries, id),
{
    lemma_entry_index(entries, id);
    let after = without_entry(entries, id);
    lemma_entry_index(after, id);
    if let Some(index) = entry_index(entries, id) {
        if let Some(again) = entry_index(after, id) {
            let original = if again < index { again } else { again + 1 };
            assert(after[again] == entries[original]);
        }
    }
}

/// Two players joining with fresh handles are both counted, whatever their names or
/// UUIDs: the handles, not the identities, tell them apart.
pub proof fn lemma_shared_identity_counts_twice(
    entries: Seq<(u64, ConnectedPlayer)>,
    next: u64,
    first: ConnectedPlayer,
    second: ConnectedPlayer,
)
    requires
        entry_index(entries, next) is None,
        entry_index(entries, following_id(next)) is None,
        following_id(next) != next,
    ensures
        ({
            let once = without_entry(entries, next).push((next, first));
            let twice = without_entry(once, following_id(next)).push((following_id(next), second));
            twice.len() == entries.len() + 2
        }),
{
    let once = entries.push((next, first));
    assert(without_entry(entries, next) == entries);
    lemma_entry_index(once, following_id(next));
    lemma_entry_index(entries, following_id(next));
    if let Some(i) = entry_index(once, following_id(next)) {
        if i < entries.len() {
            assert(once[i] == entries[i]);
        }
    }
}

} // verus!
