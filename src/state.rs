use vstd::prelude::*;

use crate::error::{InnerRecvError, SendError};
use crate::model::{
    first_free_from, lemma_attach, lemma_consume, lemma_detach, lemma_latch, lemma_publish,
    lemma_writers, next_index, offset, ChannelModel, Cursor, Event, SlotModel,
};
use crate::seat::Seat;

verus! {

/// Index of the ring slot that follows `val` in a ring of `len` slots.
pub fn ring_id(val: usize, len: usize) -> (r: usize)
    requires
        val < len,
    ensures
        r == next_index(val as nat, len as nat),
{
    proof {
        if val + 1 < len {
            vstd::arithmetic::div_mod::lemma_small_mod((val + 1) as nat, len as nat);
        } else {
            vstd::arithmetic::div_mod::lemma_mod_self_0(len as int);
        }
    }
    (val + 1) % len
}

/// The shared state of a channel: the ring of slots, the tail where the next
/// value goes, the handle counts, and the cursor of every attached consumer.
pub struct State<T> {
    ring: Vec<Seat<T>>,
    tail: usize,
    len: usize,
    num_writers: usize,
    num_readers: usize,
    cursors: Vec<Option<Cursor>>,
}

impl<T> View for State<T> {
    type V = ChannelModel<T>;

    closed spec fn view(&self) -> ChannelModel<T> {
        ChannelModel {
            ring: self.ring@.map_values(|s: Seat<T>| s@),
            tail: self.tail as nat,
            writers: self.num_writers as nat,
            readers: self.num_readers as nat,
            cursors: self.cursors@,
        }
    }
}

impl<T: Clone> State<T> {
    pub closed spec fn sized(&self) -> bool {
        self.len == self.ring@.len()
    }

    /// The state satisfies the read-counter protocol.
    pub open spec fn wf(&self) -> bool {
        self.sized() && self@.inv()
    }

    /// A ring for `len` values, plus the separating slot; no handle attached yet.
    pub fn new(len: usize) -> (s: Self)
        requires
            1 <= len < usize::MAX,
        ensures
            s.wf(),
            s@.len() == len + 1,
            s@.tail == 0,
            s@.writers == 0,
            s@.readers == 0,
            s@.cursors.len() == 0,
            forall|i: int| 0 <= i < s@.len() ==> (#[trigger] s@.ring[i]) == (SlotModel::<T> { reads: 0, required: 0, val: None }),
    {
        let len = len + 1;
        let mut ring: Vec<Seat<T>> = Vec::new();
        let mut i: usize = 0;
        while i < len
            invariant
                i <= len,
                ring@.len() == i,
                forall|j: int| 0 <= j < i ==> (#[trigger] ring@[j])@ == (SlotModel::<T> { reads: 0, required: 0, val: None }),
            decreases len - i,
        {
            ring.push(Seat::empty());
            i = i + 1;
        }
        let s = State { ring, tail: 0, len, num_writers: 0, num_readers: 0, cursors: Vec::new() };
        proof {
            assert(s@.cursors =~= Seq::<Option<Cursor>>::empty());
            assert forall|i: int| 0 <= i < s@.len() implies #[trigger] s@.coverers(i as nat) == 0 by {}
        }
        s
    }

    /// Number of attached consumers.
    pub fn num_readers(&self) -> (r: usize)
        ensures
            r == self@.readers,
    {
        self.num_readers
    }

    /// Number of attached producers.
    pub fn num_writers(&self) -> (r: usize)
        ensures
            r == self@.writers,
    {
        self.num_writers
    }

    /// Number of slots in the ring: the capacity plus the separating slot.
    pub fn len(&self) -> (r: usize)
        requires
            self.wf(),
        ensures
            r == self@.len(),
    {
        self.len
    }

    /// Reads done, reads required, and whether a value is stored, of slot `i`.
    pub fn slot(&self, i: usize) -> (r: (usize, usize, bool))
        requires
            self.wf(),
            i < self@.len(),
        ensures
            r.0 == self@.ring[i as int].reads,
            r.1 == self@.ring[i as int].required,
            r.2 == self@.ring[i as int].val is Some,
    {
        let seat = &self.ring[i];
        (seat.reads(), seat.required_reads(), seat.has_value())
    }

    /// Index of the slot the next value is written to.
    pub fn tail(&self) -> (r: usize)
        ensures
            r == self@.tail,
    {
        self.tail
    }

    /// Publishes `value` for every attached consumer, unless none is attached
    /// or the slot after the tail is still being read.
    pub fn send(&mut self, value: T) -> (r: Result<(), SendError<T>>)
        requires
            old(self).wf(),
        ensures
            final(self).wf(),
            final(self)@ == old(self)@.step(Event::Send(value)),
            r == old(self)@.send_result(value),
            r is Ok ==> old(self)@.ring[old(self)@.fence() as int].reads == old(self)@.ring[old(self)@.fence() as int].required,
            r is Ok ==> forall|id: int| #[trigger] old(self)@.is_live(id) ==> final(self)@.queue(id) == old(self)@.queue(id).push(value),
            r is Err ==> final(self)@ == old(self)@,
    {
        if self.num_readers == 0 {
            return Err(SendError::Disconnected(value));
        }
        let fence = ring_id(self.tail, self.len);
        if !self.ring[fence].is_clear() {
            return Err(SendError::Full(value));
        }
        proof {
            lemma_publish(self@, value);
        }
        let seat = self.tail;
        let readers = self.num_readers;
        self.ring[seat].write(value, readers);
        self.tail = ring_id(seat, self.len);
        proof {
            assert(self@.ring =~= old(self)@.publish(value).ring);
        }
        Ok(())
    }

    /// Registers one more producer; the count stays put at the top of its range.
    pub fn add_writer(&mut self)
        requires
            old(self).wf(),
        ensures
            final(self).wf(),
            final(self)@ == old(self)@.step(Event::AddWriter),
    {
        proof {
            lemma_writers(self@, if self@.writers < usize::MAX { self@.writers + 1 } else { self@.writers });
        }
        if self.num_writers < usize::MAX {
            self.num_writers = self.num_writers + 1;
        }
    }

    /// Unregisters one producer.
    pub fn remove_writer(&mut self)
        requires
            old(self).wf(),
        ensures
            final(self).wf(),
            final(self)@ == old(self)@.step(Event::RemoveWriter),
    {
        proof {
            lemma_writers(self@, if self@.writers > 0 { (self@.writers - 1) as nat } else { 0 });
        }
        if self.num_writers > 0 {
            self.num_writers = self.num_writers - 1;
        }
    }

    /// Registers a consumer whose cursor starts at the current tail, in the first
    /// free entry of the registry; `None` only when the count cannot grow.
    pub fn add_reader(&mut self) -> (r: Option<usize>)
        requires
            old(self).wf(),
        ensures
            final(self).wf(),
            old(self)@.readers < usize::MAX <==> r is Some,
            final(self)@ == old(self)@.step(Event::Attach),
            r matches Some(id) ==> {
                &&& id == old(self)@.first_free()
                &&& final(self)@.is_live(id as int)
                &&& !final(self)@.is_closed(id as int)
                &&& final(self)@.queue(id as int) == Seq::<T>::empty()
                &&& forall|j: int| #[trigger] old(self)@.is_live(j) ==> final(self)@.queue(j) == old(self)@.queue(j)
            },
    {
        if self.num_readers == usize::MAX {
            return None;
        }
        let mut id: usize = 0;
        while id < self.cursors.len() && self.cursors[id].is_some()
            invariant
                self.wf(),
                *self == *old(self),
                id <= self.cursors@.len(),
                forall|j: int| 0 <= j < id ==> self.cursors@[j] is Some,
                first_free_from(self.cursors@, id as int) == self@.first_free(),
            decreases self.cursors@.len() - id,
        {
            id = id + 1;
        }
        let cursor = Some(Cursor { head: self.tail, closed: false });
        proof {
            assert(first_free_from(self.cursors@, id as int) == id);
            lemma_attach(self@, id as int);
        }
        if id == self.cursors.len() {
            self.cursors.push(cursor);
        } else {
            self.cursors.set(id, cursor);
        }
        self.num_readers = self.num_readers + 1;
        proof {
            assert(self@ == old(self)@.attach(id as int));
        }
        Some(id)
    }

    /// Unregisters consumer `id`: every slot it had yet to read is counted as
    /// read, so that producers are not held up by it. Nothing happens for an
    /// entry that holds no consumer.
    pub fn remove_reader(&mut self, id: usize)
        requires
            old(self).wf(),
        ensures
            final(self).wf(),
            final(self)@ == old(self)@.step(Event::Detach(id as int)),
            forall|j: int| #[trigger] old(self)@.is_live(j) && j != id ==> final(self)@.queue(j) == old(self)@.queue(j),
    {
        if id >= self.cursors.len() {
            return;
        }
        let head = match self.cursors[id] {
            Some(c) => c.head,
            None => {
                return;
            },
        };
        proof {
            assert(self@.is_live(id as int));
        }
        let ghost m = self@;
        let ghost len = m.len();
        proof {
            lemma_detach(m, id as int);
            crate::model::lemma_count_pos(m.cursors, id as int, |c: Cursor| crate::model::always(c));
        }
        let mut cur = head;
        while cur != self.tail
            invariant
                self.sized(),
                self.len == old(self).len,
                self.tail == old(self).tail,
                self.num_readers == old(self).num_readers,
                self.num_writers == old(self).num_writers,
                self.cursors == old(self).cursors,
                m == old(self)@,
                len == m.len(),
                self.ring@.len() == len,
                m.inv(),
                m.is_live(id as int),
                head == m.head_of(id as int),
                cur < len,
                offset(head as nat, cur as nat, len) <= m.dist(head as nat),
                forall|i: int|
                    0 <= i < len ==> (#[trigger] self@.ring[i]) == if m.covers(head as nat, i as nat) && offset(
                        head as nat,
                        i as nat,
                        len,
                    ) < offset(head as nat, cur as nat, len) {
                        SlotModel { reads: m.ring[i].reads + 1, ..m.ring[i] }
                    } else {
                        m.ring[i]
                    },
            decreases m.dist(head as nat) - offset(head as nat, cur as nat, len),
        {
            let ghost before = self@.ring;
            proof {
                assert(offset(head as nat, cur as nat, len) < m.dist(head as nat));
                assert((m.covering(cur as nat))(m.cursors[id as int]->0));
                crate::model::lemma_count_pos(m.cursors, id as int, m.covering(cur as nat));
                assert(m.ring[cur as int].reads <= m.ring[cur as int].required);
                assert(before[cur as int] == m.ring[cur as int]);
            }
            self.ring[cur].skip();
            proof {
                assert(self@.ring =~= before.update(
                    cur as int,
                    SlotModel { reads: before[cur as int].reads + 1, ..before[cur as int] },
                ));
            }
            cur = ring_id(cur, self.len);
        }
        proof {
            assert(offset(head as nat, cur as nat, len) == m.dist(head as nat));
            assert forall|i: int| 0 <= i < len implies #[trigger] self@.ring[i] == m.detach(id as int).ring[i] by {
                if m.covers(head as nat, i as nat) {
                    assert(offset(head as nat, i as nat, len) < offset(head as nat, cur as nat, len));
                }
            }
            assert(self@.ring =~= m.detach(id as int).ring);
        }
        self.cursors.set(id, None);
        self.num_readers = self.num_readers - 1;
        proof {
            assert(self@ == m.detach(id as int));
        }
    }

    /// One non-blocking receive for consumer `id`: the value at its head when it
    /// is behind the tail; otherwise `Empty` while producers remain, and
    /// `Disconnected` (latched for good) once none does.
    pub fn recv(&mut self, id: usize) -> (r: Result<T, InnerRecvError>)
        requires
            old(self).wf(),
        ensures
            final(self).wf(),
            final(self)@ == old(self)@.step(Event::Recv(id as int)),
            r is Err ==> r == old(self)@.recv_outcome(id as int),
            r matches Ok(v) ==> old(self)@.recv_outcome(id as int) matches Ok(w) && cloned(w, v),
            r is Ok ==> final(self)@.queue(id as int) == old(self)@.queue(id as int).drop_first(),
            forall|j: int| #[trigger] old(self)@.is_live(j) && j != id ==> final(self)@.queue(j) == old(self)@.queue(j),
            forall|j: int| #[trigger] final(self)@.is_live(j) == old(self)@.is_live(j),
    {
        if id >= self.cursors.len() {
            return Err(InnerRecvError::Disconnected);
        }
        let c = match self.cursors[id] {
            Some(c) => c,
            None => {
                return Err(InnerRecvError::Disconnected);
            },
        };
        proof {
            assert(self@.cursors[id as int] == Some(c));
            assert(self@.is_live(id as int));
            assert(self@.head_of(id as int) == c.head);
        }
        if c.closed {
            return Err(InnerRecvError::Disconnected);
        }
        if c.head == self.tail {
            if self.num_writers == 0 {
                proof {
                    lemma_latch(self@, id as int);
                }
                self.cursors.set(id, Some(Cursor { closed: true, ..c }));
                proof {
                    assert(self@ == old(self)@.latch(id as int));
                }
                return Err(InnerRecvError::Disconnected);
            }
            return Err(InnerRecvError::Empty);
        }
        proof {
            lemma_consume(self@, id as int);
        }
        let head = c.head;
        let value = self.ring[head].take();
        self.cursors.set(id, Some(Cursor { head: ring_id(head, self.len), ..c }));
        proof {
            assert(self@.ring =~= old(self)@.consume(id as int).ring);
            assert(self@ == old(self)@.consume(id as int));
        }
        Ok(value)
    }
}

} // verus!
