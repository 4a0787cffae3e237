//! Players, their per-player outbound byte queues, and the registry that
//! owns them.
use vstd::prelude::*;
use crate::modes::{Mode, CustomMode};
use crate::privileges::Privileges;

verus! {

/// A player's physical location. The coordinates are IEEE-754
/// single-precision bit patterns; this core carries them without reading
/// them.
pub struct Geolocation {
    pub country: u8,
    pub location: (u32, u32),
    pub ip: String,
}

/// An ordered, per-player accumulator of outgoing bytes. Bytes keep the
/// order they were enqueued in; a drain takes everything at once.
pub struct ByteQueue {
    queue: Vec<u8>,
}

impl ByteQueue {
    /// The bytes waiting to be delivered, oldest first.
    pub closed spec fn queue_spec(&self) -> Seq<u8> {
        self.queue@
    }

    /// Creates an empty queue.
    pub fn new() -> (q: ByteQueue)
        ensures
            q.queue_spec() == Seq::<u8>::empty(),
    {
        ByteQueue { queue: Vec::new() }
    }

    /// Drains the queue: returns everything enqueued so far and leaves the
    /// queue empty, so no byte is ever delivered twice.
    pub fn empty(&mut self) -> (r: Vec<u8>)
        ensures
            r@ == old(self).queue_spec(),
            final(self).queue_spec() == Seq::<u8>::empty(),
    {
        let mut drained: Vec<u8> = Vec::new();
        core::mem::swap(&mut drained, &mut self.queue);
        drained
    }

    /// Appends bytes at the tail of the queue.
    pub fn enqueue(&mut self, bytes: Vec<u8>)
        ensures
            final(self).queue_spec() == old(self).queue_spec() + bytes@,
    {
        let mut taken = bytes;
        self.queue.append(&mut taken);
    }
}

/// Enqueued byte runs come back out in enqueue order, and batching two
/// enqueues changes nothing: a drain after queueing `first` then `second`
/// onto contents `start` hands back exactly `start`, then `first`, then
/// `second`.
pub proof fn lemma_queue_fifo(start: Seq<u8>, first: Seq<u8>, second: Seq<u8>)
    ensures
        (start + first) + second == start + (first + second),
        ((start + first) + second).subrange(
            start.len() as int,
            start.len() + first.len() as int,
        ) == first,
{
    assert((start + first) + second =~= start + (first + second));
    assert(((start + first) + second).subrange(
        start.len() as int,
        start.len() + first.len() as int,
    ) =~= first);
}

/// A player's in-game status.
pub struct Action {
    pub id: u8,
    pub text: String,
    pub bmap_md5: String,
    pub bmap_id: String,
    pub mods: u32,
}

/// An in-game player, created at a successful login.
pub struct Player {
    pub id: i32,
    pub name: String,
    pub safe_name: String,
    pub uuid: String,
    pub location: Geolocation,
    pub privileges: Privileges,
    pub action: Action,
    pub mode: Mode,
    pub c_mode: CustomMode,
    pub queue: ByteQueue,
}

/// `a` is `b` with its outbound queue holding `q` instead, every other field
/// untouched.
pub open spec fn same_player_but_queue(b: Player, a: Player, q: Seq<u8>) -> bool {
    &&& a.id == b.id
    &&& a.name == b.name
    &&& a.safe_name == b.safe_name
    &&& a.uuid == b.uuid
    &&& a.location == b.location
    &&& a.privileges == b.privileges
    &&& a.action == b.action
    &&& a.mode == b.mode
    &&& a.c_mode == b.c_mode
    &&& a.queue.queue_spec() == q
}

/// The registry of live players. It is the sole owner of player lifetime; a
/// given id maps to at most one live player.
pub struct PlayerList {
    players: Vec<Player>,
}

impl PlayerList {
    /// The registered players, in insertion order.
    pub closed spec fn players_seq(&self) -> Seq<Player> {
        self.players@
    }

    /// No two registered players share an id.
    pub open spec fn ids_unique(&self) -> bool {
        forall|j: int, k: int|
            0 <= j < self.players_seq().len() && 0 <= k < self.players_seq().len()
                && self.players_seq()[j].id == self.players_seq()[k].id ==> j == k
    }

    /// Whether some registered player has the given id.
    pub open spec fn contains_id(&self, p_id: i32) -> bool {
        exists|j: int|
            0 <= j < self.players_seq().len() && self.players_seq()[j].id == p_id
    }

    /// Creates an empty registry.
    pub fn new() -> (l: PlayerList)
        ensures
            l.players_seq() == Seq::<Player>::empty(),
            l.ids_unique(),
    {
        PlayerList { players: Vec::new() }
    }

    /// Registers a newly constructed player under its id, which must not be
    /// taken yet.
    pub fn add_player(&mut self, p: Player)
        requires
            old(self).ids_unique(),
            !old(self).contains_id(p.id),
        ensures
            final(self).players_seq() == old(self).players_seq().push(p),
            final(self).ids_unique(),
    {
        self.players.push(p);
    }

    /// A shared reference to the player with the given id, when one is
    /// registered.
    pub fn get(&self, p_id: i32) -> (r: Option<&Player>)
        ensures
            match r {
                Some(p) => p.id == p_id && exists|j: int|
                    0 <= j < self.players_seq().len() && self.players_seq()[j] == *p,
                None => !self.contains_id(p_id),
            },
    {
        let mut i: usize = 0;
        while i < self.players.len()
            invariant
                i <= self.players_seq().len(),
                forall|j: int| 0 <= j < i ==> self.players_seq()[j].id != p_id,
            decreases self.players_seq().len() - i,
        {
            if self.players[i].id == p_id {
                return Some(&self.players[i]);
            }
            i = i + 1;
        }
        None
    }

    /// Deregisters the player with the given id; removing an absent id is a
    /// no-op.
    pub fn remove(&mut self, p_id: i32)
        requires
            old(self).ids_unique(),
        ensures
            final(self).ids_unique(),
            !final(self).contains_id(p_id),
            !old(self).contains_id(p_id) ==> final(self).players_seq() == old(
                self,
            ).players_seq(),
            old(self).contains_id(p_id) ==> exists|j: int|
                0 <= j < old(self).players_seq().len() && old(self).players_seq()[j].id == p_id
                    && final(self).players_seq() == old(self).players_seq().remove(j),
    {
        let mut i: usize = 0;
        while i < self.players.len()
            invariant
                *self == *old(self),
                old(self).ids_unique(),
                i <= self.players_seq().len(),
                forall|j: int| 0 <= j < i ==> self.players_seq()[j].id != p_id,
            decreases self.players_seq().len() - i,
        {
            if self.players[i].id == p_id {
                self.players.remove(i);
                proof {
                    old(self).players_seq().remove_ensures(i as int);
                    assert(self.players_seq() == old(self).players_seq().remove(i as int));
                    assert forall|j: int, k: int|
                        0 <= j < self.players_seq().len() && 0 <= k < self.players_seq().len()
                            && self.players_seq()[j].id == self.players_seq()[k].id implies j
                        == k by {
                        let m = if j < i as int { j } else { j + 1 };
                        let n = if k < i as int { k } else { k + 1 };
                        assert(old(self).players_seq()[m] == self.players_seq()[j]);
                        assert(old(self).players_seq()[n] == self.players_seq()[k]);
                    }
                    assert forall|j: int|
                        0 <= j < self.players_seq().len() implies self.players_seq()[j].id
                        != p_id by {
                        let m = if j < i as int { j } else { j + 1 };
                        assert(old(self).players_seq()[m] == self.players_seq()[j]);
                        if m != i as int {
                            let prev = old(self).players_seq()[i as int];
                            assert(old(self).players_seq()[m].id != prev.id || m == i as int);
                        }
                    }
                }
                return ;
            }
            i = i + 1;
        }
    }

    /// Enqueues a copy of the given packet bytes into every registered
    /// player's outbound queue; nothing else about any player changes.
    pub fn broadcast(&mut self, packet: Vec<u8>)
        ensures
            final(self).players_seq().len() == old(self).players_seq().len(),
            forall|j: int|
                0 <= j < old(self).players_seq().len() ==> same_player_but_queue(
                    old(self).players_seq()[j],
                    #[trigger] final(self).players_seq()[j],
                    old(self).players_seq()[j].queue.queue_spec() + packet@,
                ),
            final(self).ids_unique() == old(self).ids_unique(),
    {
        let mut i: usize = 0;
        while i < self.players.len()
            invariant
                i <= self.players_seq().len(),
                self.players_seq().len() == old(self).players_seq().len(),
                forall|j: int|
                    i <= j < old(self).players_seq().len() ==> #[trigger] self.players_seq()[j]
                        == old(self).players_seq()[j],
                forall|j: int|
                    0 <= j < i ==> same_player_but_queue(
                        old(self).players_seq()[j],
                        #[trigger] self.players_seq()[j],
                        old(self).players_seq()[j].queue.queue_spec() + packet@,
                    ),
            decreases self.players_seq().len() - i,
        {
            let copy = vstd::slice::slice_to_vec(packet.as_slice());
            let p = &mut self.players[i];
            p.queue.enqueue(copy);
            i = i + 1;
        }
        proof {
            if old(self).ids_unique() {
                assert(final(self).ids_unique());
            } else {
                let (j, k) = choose|j: int, k: int|
                    0 <= j < old(self).players_seq().len() && 0 <= k < old(
                        self,
                    ).players_seq().len() && old(self).players_seq()[j].id == old(
                        self,
                    ).players_seq()[k].id && j != k;
                assert(final(self).players_seq()[j].id == final(self).players_seq()[k].id);
            }
        }
    }

    /// The bytes waiting in the queue of the player with the given id.
    pub open spec fn queue_of(&self, p_id: i32) -> Seq<u8>
        recommends
            self.contains_id(p_id),
    {
        let j = choose|j: int|
            0 <= j < self.players_seq().len() && self.players_seq()[j].id == p_id;
        self.players_seq()[j].queue.queue_spec()
    }

    /// Appends bytes to the outbound queue of the player with the given id,
    /// touching nobody else; reports whether the player was found.
    pub fn enqueue_to(&mut self, p_id: i32, bytes: Vec<u8>) -> (found: bool)
        requires
            old(self).ids_unique(),
        ensures
            final(self).ids_unique(),
            found == old(self).contains_id(p_id),
            !found ==> final(self).players_seq() == old(self).players_seq(),
            found ==> final(self).players_seq().len() == old(self).players_seq().len()
                && forall|j: int|
                0 <= j < old(self).players_seq().len() ==> {
                    let before = old(self).players_seq()[j];
                    let after = #[trigger] final(self).players_seq()[j];
                    if before.id == p_id {
                        same_player_but_queue(before, after, before.queue.queue_spec() + bytes@)
                    } else {
                        after == before
                    }
                },
    {
        let mut i: usize = 0;
        while i < self.players.len()
            invariant
                *self == *old(self),
                old(self).ids_unique(),
                i <= self.players_seq().len(),
                forall|j: int| 0 <= j < i ==> self.players_seq()[j].id != p_id,
            decreases self.players_seq().len() - i,
        {
            if self.players[i].id == p_id {
                let ghost pre = self.players@;
                let p = &mut self.players[i];
                p.queue.enqueue(bytes);
                proof {
                    assert(self.players@ == pre.update(i as int, self.players@[i as int]));
                    assert(same_player_but_queue(
                        pre[i as int],
                        self.players@[i as int],
                        pre[i as int].queue.queue_spec() + bytes@,
                    ));
                    assert(forall|j: int|
                        0 <= j < pre.len() && j != i ==> #[trigger] self.players@[j] == pre[j]);
                    assert(forall|j: int|
                        0 <= j < pre.len() ==> (#[trigger] self.players@[j]).id == pre[j].id);
                }
                return true;
            }
            i = i + 1;
        }
        false
    }

    /// Takes everything out of the queue of the player with the given id,
    /// leaving it empty and touching nobody else; nothing for an unknown id.
    pub fn drain_queue(&mut self, p_id: i32) -> (r: Option<Vec<u8>>)
        requires
            old(self).ids_unique(),
        ensures
            final(self).ids_unique(),
            r is Some <==> old(self).contains_id(p_id),
            r is None ==> final(self).players_seq() == old(self).players_seq(),
            r matches Some(out) ==> out@ == old(self).queue_of(p_id)
                && final(self).players_seq().len() == old(self).players_seq().len() && forall|j: int|
                0 <= j < old(self).players_seq().len() ==> {
                    let before = old(self).players_seq()[j];
                    let after = #[trigger] final(self).players_seq()[j];
                    if before.id == p_id {
                        same_player_but_queue(before, after, Seq::<u8>::empty())
                    } else {
                        after == before
                    }
                },
    {
        let mut i: usize = 0;
        while i < self.players.len()
            invariant
                *self == *old(self),
                old(self).ids_unique(),
                i <= self.players_seq().len(),
                forall|j: int| 0 <= j < i ==> self.players_seq()[j].id != p_id,
            decreases self.players_seq().len() - i,
        {
            if self.players[i].id == p_id {
                let p = &mut self.players[i];
                let out = p.queue.empty();
                proof {
                    let w = choose|j: int|
                        0 <= j < old(self).players_seq().len() && old(self).players_seq()[j].id
                            == p_id;
                    assert(old(self).players_seq()[w].id == old(self).players_seq()[i as int].id);
                    assert(w == i as int);
                }
                return Some(out);
            }
            i = i + 1;
        }
        None
    }
}

} // verus!
