//! A fixed-capacity pool of reusable connection slots with stale-handle
//! detection.
//!
//! Each slot carries a generation counter; the parity of the counter encodes
//! liveness (even = free, odd = allocated), and every allocate or free
//! transition increments it by exactly one. A handle pairs a slot id with the
//! generation at which it was issued, so any handle outlived by its slot is
//! detected by a simple generation mismatch.

use std::collections::VecDeque;
use vstd::prelude::*;

verus! {

/// A handle to one occupant of one slot: a slot id paired with the generation
/// at which the slot was allocated. Handles are issued by
/// [`ConnectionList::create_connection`] and become permanently stale once the
/// slot moves to a later generation.
#[derive(Debug, Copy, Clone, Eq, PartialEq, Hash, Structural)]
pub struct Connection {
    id: usize,
    generation: usize,
}

impl Connection {
    /// The slot index this handle addresses.
    pub closed spec fn spec_id(&self) -> int {
        self.id as int
    }

    /// The generation stamp carried by this handle.
    pub closed spec fn spec_generation(&self) -> int {
        self.generation as int
    }

    /// Builds a handle from its two fields. Handles addressing live slots are
    /// normally obtained from [`ConnectionList::create_connection`]; building
    /// one by hand is intended for diagnostics and tests.
    pub fn new(id: usize, generation: usize) -> (c: Self)
        ensures
            c.spec_id() == id,
            c.spec_generation() == generation,
    {
        Self { id, generation }
    }

    /// Reads the slot index.
    pub fn id(&self) -> (r: usize)
        ensures
            r == self.spec_id(),
    {
        self.id
    }

    /// Reads the generation stamp.
    pub fn generation(&self) -> (r: usize)
        ensures
            r == self.spec_generation(),
    {
        self.generation
    }
}

/// The slot pool. It owns one generation-stamped slot per id and a FIFO queue
/// of the ids whose slots are currently free (even generation).
pub struct ConnectionList {
    connections: Vec<Connection>,
    empty: VecDeque<usize>,
}

impl ConnectionList {
    /// Number of slots, fixed at construction.
    pub closed spec fn capacity(&self) -> int {
        self.connections.len() as int
    }

    /// The current generation of each slot, by slot id.
    pub closed spec fn generations(&self) -> Seq<int> {
        Seq::new(self.connections.len() as nat, |i: int| self.connections[i].spec_generation())
    }

    /// The ids of the currently free slots, oldest first.
    pub closed spec fn free_ids(&self) -> Seq<int> {
        Seq::new(self.empty@.len(), |i: int| self.empty@[i] as int)
    }

    /// A handle is alive exactly when its slot still stands at the handle's
    /// generation and that generation is odd (allocated).
    pub open spec fn spec_is_alive(&self, c: Connection) -> bool {
        &&& 0 <= c.spec_id() < self.capacity()
        &&& self.generations()[c.spec_id()] == c.spec_generation()
        &&& c.spec_generation() % 2 == 1
    }

    /// Structural invariant: each slot records its own id; the free queue
    /// holds exactly the ids whose generation is even, each at most once.
    pub closed spec fn wf(&self) -> bool {
        &&& forall|i: int|
            0 <= i < self.connections.len() ==> (#[trigger] self.connections[i]).spec_id() == i
        &&& forall|k: int|
            0 <= k < self.free_ids().len() ==> 0 <= #[trigger] self.free_ids()[k] < self.capacity()
        &&& forall|k: int|
            0 <= k < self.free_ids().len() ==> self.generations()[#[trigger] self.free_ids()[k]] % 2
                == 0
        &&& forall|k1: int, k2: int|
            0 <= k1 < k2 < self.free_ids().len() ==> #[trigger] self.free_ids()[k1]
                != #[trigger] self.free_ids()[k2]
        &&& forall|i: int|
            0 <= i < self.capacity() && (#[trigger] self.generations()[i]) % 2 == 0
                ==> self.free_ids().contains(i)
    }

    /// Builds a pool of `size` slots, all at generation 0 (free), with the
    /// free queue holding every id in ascending order.
    pub fn new(size: usize) -> (r: Self)
        ensures
            r.wf(),
            r.capacity() == size,
            r.generations() == Seq::new(size as nat, |i: int| 0int),
            r.free_ids() == Seq::new(size as nat, |i: int| i),
    {
        let mut connections: Vec<Connection> = Vec::with_capacity(size);
        let mut empty: VecDeque<usize> = VecDeque::with_capacity(size);
        for i in 0..size
            invariant
                connections@.len() == i,
                empty@.len() == i,
                forall|j: int|
                    0 <= j < i ==> (#[trigger] connections@[j]).spec_id() == j
                        && connections@[j].spec_generation() == 0,
                forall|j: int| 0 <= j < i ==> #[trigger] empty@[j] == j,
        {
            connections.push(Connection::new(i, 0));
            empty.push_back(i);
        }
        let r = Self { connections, empty };
        proof {
            assert(r.generations() =~= Seq::new(size as nat, |i: int| 0int));
            assert(r.free_ids() =~= Seq::new(size as nat, |i: int| i));
            assert forall|i: int|
                0 <= i < r.capacity() && (#[trigger] r.generations()[i]) % 2 == 0 implies r
                .free_ids()
                .contains(i) by {
                assert(r.free_ids()[i] == i);
            }
        }
        r
    }

    /// Reports whether `connection` is the current, allocated occupant of its
    /// slot. A stale or superseded handle is always reported dead.
    pub fn is_alive(&self, connection: Connection) -> (r: bool)
        requires
            0 <= connection.spec_id() < self.capacity(),
        ensures
            r == self.spec_is_alive(connection),
    {
        let id = connection.id;

        if self.connections[id].generation != connection.generation {
            return false;
        }

        connection.generation % 2 == 1
    }

    /// Allocates the oldest free slot, advancing its generation from even to
    /// odd, and returns the handle for the new occupant. Returns `None`
    /// exactly when the pool is exhausted, leaving it unchanged.
    pub fn create_connection(&mut self) -> (r: Option<Connection>)
        requires
            old(self).wf(),
            forall|i: int|
                0 <= i < old(self).capacity() ==> #[trigger] old(self).generations()[i]
                    < usize::MAX,
        ensures
            final(self).wf(),
            final(self).capacity() == old(self).capacity(),
            match r {
                Some(c) => {
                    &&& old(self).free_ids().len() > 0
                    &&& c.spec_id() == old(self).free_ids()[0]
                    &&& old(self).generations()[c.spec_id()] % 2 == 0
                    &&& c.spec_generation() == old(self).generations()[c.spec_id()] + 1
                    &&& final(self).generations() == old(self).generations().update(
                        c.spec_id(),
                        c.spec_generation(),
                    )
                    &&& final(self).free_ids() == old(self).free_ids().drop_first()
                    &&& final(self).spec_is_alive(c)
                },
                None => {
                    &&& old(self).free_ids().len() == 0
                    &&& final(self).generations() == old(self).generations()
                    &&& final(self).free_ids() == old(self).free_ids()
                },
            },
            // Liveness of every other handle is untouched.
            forall|h: Connection|
                old(self).spec_is_alive(h) ==> final(self).spec_is_alive(h),
            // Generations never move backwards.
            forall|i: int|
                0 <= i < old(self).capacity() ==> old(self).generations()[i]
                    <= #[trigger] final(self).generations()[i],
    {
        let popped = self.empty.pop_front();
        let id = match popped {
            Some(id) => id,
            None => {
                proof {
                    assert(self.free_ids() =~= old(self).free_ids());
                    assert(self.generations() =~= old(self).generations());
                }
                return None;
            },
        };
        proof {
            assert(old(self).free_ids()[0] == id);
        }

        let old_connection = self.connections[id];
        let new_connection = Connection::new(id, old_connection.generation + 1);

        self.connections.set(id, new_connection);

        proof {
            let pre = old(self).free_ids();
            assert(self.free_ids() =~= pre.drop_first());
            assert(self.generations() =~= old(self).generations().update(
                id as int,
                new_connection.spec_generation(),
            ));
            assert forall|i: int|
                0 <= i < self.capacity() && (#[trigger] self.generations()[i]) % 2 == 0 implies self
                .free_ids()
                .contains(i) by {
                assert(old(self).generations()[i] % 2 == 0);
                let k = choose|k: int| 0 <= k < pre.len() && pre[k] == i;
                assert(pre[0] == id);
                assert(self.free_ids()[k - 1] == i);
            }
        }

        Some(new_connection)
    }

    /// Frees the slot addressed by `connection`, advancing its generation from
    /// odd to even and queueing the id for reuse. Fails exactly when the slot
    /// has already moved past the handle's generation (a double delete or a
    /// stale handle), leaving the pool unchanged.
    pub fn delete_connection(&mut self, connection: Connection) -> (r: Result<(), ()>)
        requires
            old(self).wf(),
            0 <= connection.spec_id() < old(self).capacity(),
            connection.spec_generation() % 2 == 1,
            connection.spec_generation() < usize::MAX,
        ensures
            final(self).wf(),
            final(self).capacity() == old(self).capacity(),
            r is Ok <==> old(self).generations()[connection.spec_id()]
                == connection.spec_generation(),
            r is Ok <==> old(self).spec_is_alive(connection),
            match r {
                Ok(()) => {
                    &&& final(self).generations() == old(self).generations().update(
                        connection.spec_id(),
                        connection.spec_generation() + 1,
                    )
                    &&& final(self).free_ids() == old(self).free_ids().push(connection.spec_id())
                    &&& !final(self).spec_is_alive(connection)
                },
                Err(()) => {
                    &&& final(self).generations() == old(self).generations()
                    &&& final(self).free_ids() == old(self).free_ids()
                },
            },
            // Liveness of every other handle is untouched.
            forall|h: Connection|
                old(self).spec_is_alive(h) && h != connection ==> final(self).spec_is_alive(h),
            // Generations never move backwards.
            forall|i: int|
                0 <= i < old(self).capacity() ==> old(self).generations()[i]
                    <= #[trigger] final(self).generations()[i],
    {
        let id = connection.id;

        let old_connection = self.connections[id];

        if connection.generation != old_connection.generation {
            return Err(());
        }

        let new_connection = Connection::new(id, old_connection.generation + 1);
        self.connections.set(id, new_connection);
        self.empty.push_back(id);

        proof {
            let pre = old(self).free_ids();
            assert(self.free_ids() =~= pre.push(id as int));
            assert(self.generations() =~= old(self).generations().update(
                id as int,
                connection.spec_generation() + 1,
            ));
            assert forall|i: int|
                0 <= i < self.capacity() && (#[trigger] self.generations()[i]) % 2 == 0 implies self
                .free_ids()
                .contains(i) by {
                if i == id as int {
                    assert(self.free_ids()[pre.len() as int] == i);
                } else {
                    assert(old(self).generations()[i] % 2 == 0);
                    let k = choose|k: int| 0 <= k < pre.len() && pre[k] == i;
                    assert(self.free_ids()[k] == i);
                }
            }
            assert forall|k1: int, k2: int|
                0 <= k1 < k2 < self.free_ids().len() implies #[trigger] self.free_ids()[k1]
                != #[trigger] self.free_ids()[k2] by {
                if k2 == pre.len() as int {
                    // The appended id was allocated (odd generation) before the
                    // call, so it cannot already stand in the free queue.
                    assert(self.free_ids()[k2] == id);
                    if pre[k1] == id as int {
                        assert(old(self).generations()[id as int] % 2 == 0);
                    }
                }
            }
            assert forall|h: Connection|
                old(self).spec_is_alive(h) && h != connection implies self.spec_is_alive(h) by {
                if h.spec_id() == connection.spec_id() {
                    assert(h.spec_generation() == connection.spec_generation());
                }
            }
        }

        Ok(())
    }

    /// Starts a lazy scan over the currently-live handles, from slot 0. The
    /// scan reads the pool through a shared borrow; build a fresh one to
    /// restart it.
    pub fn iter<'a>(&'a self) -> (it: ConnectionIterator<'a>)
        ensures
            it.spec_list() == *self,
            it.spec_index() == 0,
    {
        ConnectionIterator { list: self, index: 0 }
    }
}

/// A lazy, finite, restartable cursor over the currently-live handles of a
/// pool, visiting slots in ascending id order. Each step reads the pool as it
/// stands; the cursor holds no snapshot.
pub struct ConnectionIterator<'a> {
    list: &'a ConnectionList,
    index: usize,
}

impl<'a> ConnectionIterator<'a> {
    /// The pool being scanned.
    pub closed spec fn spec_list(&self) -> ConnectionList {
        *self.list
    }

    /// The next slot id the scan will look at.
    pub closed spec fn spec_index(&self) -> int {
        self.index as int
    }

    /// Returns the live handle of the first allocated slot at or after the
    /// cursor, advancing the cursor past it; returns `None`, with the cursor
    /// at the end, when every remaining slot is free.
    pub fn next(&mut self) -> (r: Option<Connection>)
        requires
            old(self).spec_list().wf(),
            0 <= old(self).spec_index() <= old(self).spec_list().capacity(),
        ensures
            final(self).spec_list() == old(self).spec_list(),
            match r {
                Some(c) => {
                    &&& old(self).spec_index() <= c.spec_id() < old(self).spec_list().capacity()
                    &&& old(self).spec_list().spec_is_alive(c)
                    &&& final(self).spec_index() == c.spec_id() + 1
                    &&& forall|j: int|
                        old(self).spec_index() <= j < c.spec_id() ==> (#[trigger] old(
                            self,
                        ).spec_list().generations()[j]) % 2 == 0
                },
                None => {
                    &&& final(self).spec_index() == old(self).spec_list().capacity()
                    &&& forall|j: int|
                        old(self).spec_index() <= j < old(self).spec_list().capacity() ==> (
                        #[trigger] old(self).spec_list().generations()[j]) % 2 == 0
                },
            },
    {
        while self.index < self.list.connections.len()
            invariant
                self.list == old(self).list,
                old(self).spec_index() <= self.index as int <= self.list.connections.len(),
                self.list.wf(),
                forall|j: int|
                    old(self).spec_index() <= j < self.index as int ==> (#[trigger] self.list.generations()[j])
                        % 2 == 0,
            decreases self.list.connections.len() - self.index,
        {
            let connection = self.list.connections[self.index];
            self.index += 1;

            proof {
                assert(connection.spec_id() == self.index - 1);
                assert(connection.spec_generation() == self.list.generations()[self.index - 1]);
            }
            if self.list.is_alive(connection) {
                return Some(connection);
            }
        }

        None
    }
}

/// Returned by [`ConnectionDataList::set`] when a write arrives through a
/// handle whose generation a later write has already superseded. It signals a
/// broken caller invariant — the data must not be corrupted — and the host
/// decides whether to treat it as fatal.
#[derive(Debug, Copy, Clone, PartialEq, Eq, Structural)]
pub struct StaleWrite;

/// A sparse side-table attaching one payload of type `T` to each slot id,
/// stamped with the generation that last wrote it. It is kept deliberately
/// independent of [`ConnectionList`]: it learns nothing of deletions and
/// infers staleness purely by comparing generations, so a payload written
/// under one generation is never visible through a handle of another. The
/// caller must clear payloads alongside `delete_connection`, or they are
/// retained until the slot's id is written again.
pub struct ConnectionDataList<T> {
    items: Vec<Option<T>>,
    generations: Vec<usize>,
}

impl<T> ConnectionDataList<T> {
    /// Number of slots, fixed at construction.
    pub closed spec fn capacity(&self) -> int {
        self.items.len() as int
    }

    /// The stored payload of each slot id.
    pub closed spec fn items_view(&self) -> Seq<Option<T>> {
        self.items@
    }

    /// The generation that last wrote each slot id.
    pub closed spec fn stamps(&self) -> Seq<int> {
        Seq::new(self.generations@.len(), |i: int| self.generations@[i] as int)
    }

    /// Structural invariant: one payload cell and one stamp per slot.
    pub open spec fn wf(&self) -> bool {
        &&& self.items_view().len() == self.capacity()
        &&& self.stamps().len() == self.capacity()
    }

    /// What a read through `c` observes: the stored payload of the slot, but
    /// only when the handle's generation equals the stamp of the last write.
    pub open spec fn spec_get(&self, c: Connection) -> Option<T>
        recommends
            0 <= c.spec_id() < self.capacity(),
    {
        if self.stamps()[c.spec_id()] == c.spec_generation() {
            self.items_view()[c.spec_id()]
        } else {
            None
        }
    }

    /// Builds a table of `size` empty slots, all stamped with generation 0.
    pub fn new(size: usize) -> (r: Self)
        ensures
            r.wf(),
            r.capacity() == size,
            r.stamps() == Seq::new(size as nat, |i: int| 0int),
            r.items_view() == Seq::new(size as nat, |i: int| Option::<T>::None),
    {
        let mut items: Vec<Option<T>> = Vec::with_capacity(size);
        let mut generations: Vec<usize> = Vec::with_capacity(size);
        for i in 0..size
            invariant
                items@.len() == i,
                generations@.len() == i,
                forall|j: int| 0 <= j < i ==> #[trigger] items@[j] is None,
                forall|j: int| 0 <= j < i ==> #[trigger] generations@[j] == 0,
        {
            items.push(None);
            generations.push(0);
        }
        let r = Self { items, generations };
        proof {
            assert(r.stamps() =~= Seq::new(size as nat, |i: int| 0int));
            assert(r.items_view() =~= Seq::new(size as nat, |i: int| Option::<T>::None));
        }
        r
    }

    /// Reads the payload through `connection`; absent unless the handle's
    /// generation exactly matches the stamp of the last write.
    pub fn get(&self, connection: Connection) -> (r: Option<&T>)
        requires
            self.wf(),
            0 <= connection.spec_id() < self.capacity(),
        ensures
            match r {
                Some(v) => self.spec_get(connection) == Some(*v),
                None => self.spec_get(connection) is None,
            },
    {
        let id = connection.id;

        // the generation needs to match the exact generation that was inserted
        // so that a newer generation doesn't get old data
        if connection.generation != self.generations[id] {
            return None;
        }

        match self.items[id] {
            Some(ref item) => Some(item),
            None => None,
        }
    }

    /// Borrows the payload mutably through `connection`, under the same exact
    /// generation match as [`Self::get`].
    pub fn get_mut(&mut self, connection: Connection) -> (r: Option<&mut T>)
        requires
            old(self).wf(),
            0 <= connection.spec_id() < old(self).capacity(),
        ensures
            final(self).wf(),
            final(self).capacity() == old(self).capacity(),
            final(self).stamps() == old(self).stamps(),
            r is Some ==> old(self).spec_get(connection) == Some(*r.unwrap())
                && final(self).items_view() == old(self).items_view().update(
                connection.spec_id(),
                Some(*final(r.unwrap())),
            ),
            r is None ==> old(self).spec_get(connection) is None && final(self).items_view()
                == old(self).items_view(),
    {
        let id = connection.id;

        // the generation needs to match the exact generation that was inserted
        // so that a newer generation doesn't get old data
        if connection.generation != self.generations[id] {
            return None;
        }
        if self.items[id].is_none() {
            return None;
        }

        let slot = &mut self.items[id];
        slot.as_mut()
    }

    /// Stores `item` through `connection`, stamping the slot with the
    /// handle's generation. The current or any newer generation may
    /// overwrite; a write from a generation older than the stamp is refused
    /// as a [`StaleWrite`], leaving the table unchanged.
    pub fn set(&mut self, connection: Connection, item: T) -> (r: Result<(), StaleWrite>)
        requires
            old(self).wf(),
            0 <= connection.spec_id() < old(self).capacity(),
        ensures
            final(self).wf(),
            final(self).capacity() == old(self).capacity(),
            r is Ok <==> connection.spec_generation() >= old(self).stamps()[connection.spec_id()],
            match r {
                Ok(()) => {
                    &&& final(self).stamps() == old(self).stamps().update(
                        connection.spec_id(),
                        connection.spec_generation(),
                    )
                    &&& final(self).items_view() == old(self).items_view().update(
                        connection.spec_id(),
                        Some(item),
                    )
                    &&& final(self).spec_get(connection) == Some(item)
                },
                Err(StaleWrite) => {
                    &&& final(self).stamps() == old(self).stamps()
                    &&& final(self).items_view() == old(self).items_view()
                },
            },
    {
        let id = connection.id;

        // the generation needs to be greater or equal to the last inserted
        // generation so that the current generation, as well as newer
        // generations, can override the value
        if connection.generation < self.generations[id] {
            return Err(StaleWrite);
        }

        self.generations.set(id, connection.generation);
        self.items.set(id, Some(item));

        proof {
            assert(self.stamps() =~= old(self).stamps().update(
                connection.spec_id(),
                connection.spec_generation(),
            ));
        }

        Ok(())
    }

    /// Takes the payload out through `connection`: returns and clears it on
    /// an exact generation match, and reports absence without side effect
    /// otherwise.
    pub fn remove(&mut self, connection: Connection) -> (r: Option<T>)
        requires
            old(self).wf(),
            0 <= connection.spec_id() < old(self).capacity(),
        ensures
            final(self).wf(),
            final(self).capacity() == old(self).capacity(),
            final(self).stamps() == old(self).stamps(),
            r == old(self).spec_get(connection),
            final(self).spec_get(connection) is None,
            final(self).items_view() == (if old(self).spec_get(connection) is Some {
                old(self).items_view().update(connection.spec_id(), Option::<T>::None)
            } else {
                old(self).items_view()
            }),
    {
        let id = connection.id;

        // the generation needs to match the exact generation that was inserted
        // so that a newer generation doesn't get old data
        if connection.generation != self.generations[id] {
            return None;
        }

        let slot = &mut self.items[id];
        let r = slot.take();

        proof {
            if old(self).items_view()[connection.spec_id()] is None {
                assert(self.items@ =~= old(self).items@);
            }
        }

        r
    }
}

/// Law: a handle whose slot has moved to any later generation is never
/// reported alive again, whatever the slot's current occupant. Together with
/// the monotonicity clauses of `create_connection` and `delete_connection`
/// (generations never move backwards), a handle that was once superseded
/// stays dead through every later reuse of its slot.
pub proof fn lemma_superseded_never_alive(l: ConnectionList, h: Connection)
    requires
        0 <= h.spec_id() < l.capacity(),
        l.generations()[h.spec_id()] > h.spec_generation(),
    ensures
        !l.spec_is_alive(h),
{
}

/// Law: a read or removal through a handle whose generation differs from the
/// stamp of the slot's last write observes nothing, so no generation's
/// payload is ever visible to another generation's handle.
pub proof fn lemma_mismatched_generation_reads_absent<T>(d: ConnectionDataList<T>, h: Connection)
    requires
        0 <= h.spec_id() < d.capacity(),
        d.stamps()[h.spec_id()] != h.spec_generation(),
    ensures
        d.spec_get(h) is None,
{
}

} // verus!
