use vstd::prelude::*;

use crate::error::{InnerRecvError, SendError};

verus! {

/// Position and latch of one attached consumer.
#[derive(Clone, Copy, PartialEq, Eq, Structural)]
pub struct Cursor {
    /// Index of the next slot this consumer reads.
    pub head: usize,
    /// Set once the consumer has seen the channel closed.
    pub closed: bool,
}

/// Abstract view of one ring slot.
pub struct SlotModel<T> {
    pub reads: nat,
    pub required: nat,
    pub val: Option<T>,
}

/// Abstract view of the whole shared state of a channel.
pub struct ChannelModel<T> {
    pub ring: Seq<SlotModel<T>>,
    pub tail: nat,
    pub writers: nat,
    pub readers: nat,
    /// Registry of consumers: an entry is `None` once its consumer left.
    pub cursors: Seq<Option<Cursor>>,
}

/// Index after `i` in a ring of `len` slots.
pub open spec fn next_index(i: nat, len: nat) -> nat {
    if i + 1 >= len {
        0
    } else {
        i + 1
    }
}

/// How far slot `i` lies ahead of `from`, walking forward around a ring of `len` slots.
pub open spec fn offset(from: nat, i: nat, len: nat) -> nat {
    if from <= i {
        (i - from) as nat
    } else {
        (i + len - from) as nat
    }
}

/// Index `k` steps after `from` in a ring of `len` slots (`k < len`).
pub open spec fn advance(from: nat, k: nat, len: nat) -> nat {
    if from + k < len {
        from + k
    } else {
        (from + k - len) as nat
    }
}

/// Number of entries of `cs` that are present and satisfy `p`.
pub open spec fn count_where(cs: Seq<Option<Cursor>>, p: spec_fn(Cursor) -> bool) -> nat
    decreases cs.len(),
{
    if cs.len() == 0 {
        0
    } else {
        count_where(cs.drop_last(), p) + indicator(cs.last(), p)
    }
}

pub open spec fn indicator(c: Option<Cursor>, p: spec_fn(Cursor) -> bool) -> nat {
    match c {
        Some(c) => if p(c) {
            1nat
        } else {
            0nat
        },
        None => 0nat,
    }
}

/// Holds of a cursor whose window `[head, tail)` contains slot `i`.
pub open spec fn covering_fn(tail: nat, len: nat, i: nat) -> spec_fn(Cursor) -> bool {
    |c: Cursor| offset(c.head as nat, i, len) < offset(c.head as nat, tail, len)
}

pub open spec fn always(c: Cursor) -> bool {
    true
}

impl<T> SlotModel<T> {
    /// Every subscribed reader has passed this slot: a producer may overwrite it.
    pub open spec fn is_clear(self) -> bool {
        self.reads >= self.required
    }
}

impl<T> ChannelModel<T> {
    pub open spec fn len(self) -> nat {
        self.ring.len()
    }

    /// Number of values a consumer can have outstanding.
    pub open spec fn capacity(self) -> nat {
        (self.ring.len() - 1) as nat
    }

    /// The slot that must be clear before a producer publishes at `tail`.
    pub open spec fn fence(self) -> nat {
        next_index(self.tail, self.len())
    }

    /// Number of published values a consumer at `head` has not read yet.
    pub open spec fn dist(self, head: nat) -> nat {
        offset(head, self.tail, self.len())
    }

    /// Slot `i` lies in the window `[head, tail)` of a consumer at `head`.
    pub open spec fn covers(self, head: nat, i: nat) -> bool {
        offset(head, i, self.len()) < self.dist(head)
    }

    /// Values a consumer at `head` will still receive, oldest first.
    pub open spec fn pending(self, head: nat) -> Seq<T> {
        Seq::new(self.dist(head), |k: int| self.ring[advance(head, k as nat, self.len()) as int].val->0)
    }

    pub open spec fn is_live(self, id: int) -> bool {
        0 <= id < self.cursors.len() && self.cursors[id] is Some
    }

    pub open spec fn head_of(self, id: int) -> nat {
        self.cursors[id]->0.head as nat
    }

    /// Values the consumer registered under `id` will still receive, oldest first.
    pub open spec fn queue(self, id: int) -> Seq<T> {
        self.pending(self.head_of(id))
    }

    pub open spec fn covering(self, i: nat) -> spec_fn(Cursor) -> bool {
        covering_fn(self.tail, self.len(), i)
    }

    /// Number of attached consumers that still have to read slot `i`.
    pub open spec fn coverers(self, i: nat) -> nat {
        count_where(self.cursors, self.covering(i))
    }

    pub open spec fn live_count(self) -> nat {
        count_where(self.cursors, |c: Cursor| always(c))
    }

    /// The read-counter protocol: each slot's outstanding reads are exactly the
    /// attached consumers whose window holds it, and such a slot holds its value.
    pub open spec fn inv(self) -> bool {
        &&& 2 <= self.len() <= usize::MAX
        &&& self.tail < self.len()
        &&& self.readers == self.live_count()
        &&& forall|id: int| #[trigger] self.is_live(id) ==> self.head_of(id) < self.len()
        &&& forall|i: int|
            0 <= i < self.len() ==> {
                &&& #[trigger] self.ring[i].reads <= self.ring[i].required
                &&& self.ring[i].required - self.ring[i].reads == self.coverers(i as nat)
                &&& self.coverers(i as nat) > 0 ==> self.ring[i].val is Some
            }
    }

    /// Some attached consumer has `capacity` values outstanding.
    pub open spec fn some_full(self) -> bool {
        exists|id: int| #[trigger] self.is_live(id) && self.queue(id).len() == self.capacity()
    }
}

pub proof fn lemma_count_push(cs: Seq<Option<Cursor>>, x: Option<Cursor>, p: spec_fn(Cursor) -> bool)
    ensures
        count_where(cs.push(x), p) == count_where(cs, p) + indicator(x, p),
{
    assert(cs.push(x).drop_last() =~= cs);
}

pub proof fn lemma_count_update(
    cs: Seq<Option<Cursor>>,
    j: int,
    x: Option<Cursor>,
    p: spec_fn(Cursor) -> bool,
)
    requires
        0 <= j < cs.len(),
    ensures
        count_where(cs.update(j, x), p) + indicator(cs[j], p) == count_where(cs, p) + indicator(x, p),
    decreases cs.len(),
{
    let u = cs.update(j, x);
    if j == cs.len() - 1 {
        assert(u.drop_last() =~= cs.drop_last());
    } else {
        assert(u.drop_last() =~= cs.drop_last().update(j, x));
        lemma_count_update(cs.drop_last(), j, x, p);
    }
}

/// Counts agree when the two predicates agree on every present entry.
pub proof fn lemma_count_same(cs: Seq<Option<Cursor>>, p: spec_fn(Cursor) -> bool, q: spec_fn(Cursor) -> bool)
    requires
        forall|j: int| 0 <= j < cs.len() && cs[j] is Some ==> (p(cs[j]->0) == q(cs[j]->0)),
    ensures
        count_where(cs, p) == count_where(cs, q),
    decreases cs.len(),
{
    if cs.len() > 0 {
        let d = cs.drop_last();
        assert forall|j: int| 0 <= j < d.len() && d[j] is Some implies (p(d[j]->0) == q(d[j]->0)) by {
            assert(d[j] == cs[j]);
        }
        lemma_count_same(d, p, q);
    }
}

/// A predicate that no present entry satisfies counts zero.
pub proof fn lemma_count_none(cs: Seq<Option<Cursor>>, p: spec_fn(Cursor) -> bool)
    requires
        forall|j: int| 0 <= j < cs.len() && cs[j] is Some ==> !p(cs[j]->0),
    ensures
        count_where(cs, p) == 0,
    decreases cs.len(),
{
    if cs.len() > 0 {
        let d = cs.drop_last();
        assert forall|j: int| 0 <= j < d.len() && d[j] is Some implies !p(d[j]->0) by {
            assert(d[j] == cs[j]);
        }
        lemma_count_none(d, p);
    }
}

/// A present entry that satisfies `p` makes the count positive.
pub proof fn lemma_count_pos(cs: Seq<Option<Cursor>>, j: int, p: spec_fn(Cursor) -> bool)
    requires
        0 <= j < cs.len(),
        cs[j] is Some,
        p(cs[j]->0),
    ensures
        count_where(cs, p) > 0,
    decreases cs.len(),
{
    if j < cs.len() - 1 {
        assert(cs.drop_last()[j] == cs[j]);
        lemma_count_pos(cs.drop_last(), j, p);
    }
}

pub proof fn lemma_count_le_len(cs: Seq<Option<Cursor>>, p: spec_fn(Cursor) -> bool)
    ensures
        count_where(cs, p) <= cs.len(),
    decreases cs.len(),
{
    if cs.len() > 0 {
        lemma_count_le_len(cs.drop_last(), p);
    }
}

/// With no free entry, every entry is counted.
pub proof fn lemma_count_all(cs: Seq<Option<Cursor>>)
    requires
        forall|j: int| 0 <= j < cs.len() ==> cs[j] is Some,
    ensures
        count_where(cs, |c: Cursor| always(c)) == cs.len(),
    decreases cs.len(),
{
    if cs.len() > 0 {
        let d = cs.drop_last();
        assert forall|j: int| 0 <= j < d.len() implies d[j] is Some by {
            assert(d[j] == cs[j]);
        }
        lemma_count_all(d);
    }
}


impl<T> ChannelModel<T> {
    /// The state after a producer writes `value` at the tail and advances it.
    pub open spec fn publish(self, value: T) -> ChannelModel<T> {
        ChannelModel {
            ring: self.ring.update(
                self.tail as int,
                SlotModel { reads: 0, required: self.readers, val: Some(value) },
            ),
            tail: next_index(self.tail, self.len()),
            ..self
        }
    }

    /// The slot at `i` after one more read of it.
    pub open spec fn read_slot(self, i: nat) -> SlotModel<T> {
        let s = self.ring[i as int];
        SlotModel {
            reads: s.reads + 1,
            required: s.required,
            val: if s.reads + 1 == s.required {
                None
            } else {
                s.val
            },
        }
    }

    /// The state after consumer `id` reads the value at its head and moves on.
    pub open spec fn consume(self, id: int) -> ChannelModel<T> {
        let c = self.cursors[id]->0;
        ChannelModel {
            ring: self.ring.update(c.head as int, self.read_slot(c.head as nat)),
            cursors: self.cursors.update(
                id,
                Some(Cursor { head: next_index(c.head as nat, self.len()) as usize, ..c }),
            ),
            ..self
        }
    }

    /// The state after consumer `id` latches that the channel is closed.
    pub open spec fn latch(self, id: int) -> ChannelModel<T> {
        ChannelModel {
            cursors: self.cursors.update(id, Some(Cursor { closed: true, ..self.cursors[id]->0 })),
            ..self
        }
    }

    /// The state after consumer `id` leaves: every slot it still had to read
    /// is counted as read, and its entry is freed.
    pub open spec fn detach(self, id: int) -> ChannelModel<T> {
        let h = self.head_of(id);
        ChannelModel {
            ring: Seq::new(
                self.len(),
                |i: int|
                    if self.covers(h, i as nat) {
                        SlotModel { reads: self.ring[i].reads + 1, ..self.ring[i] }
                    } else {
                        self.ring[i]
                    },
            ),
            readers: (self.readers - 1) as nat,
            cursors: self.cursors.update(id, None),
            ..self
        }
    }

    /// The state after a consumer registers under `id` at the current tail.
    pub open spec fn attach(self, id: int) -> ChannelModel<T> {
        let c = Some(Cursor { head: self.tail as usize, closed: false });
        ChannelModel {
            readers: self.readers + 1,
            cursors: if id == self.cursors.len() {
                self.cursors.push(c)
            } else {
                self.cursors.update(id, c)
            },
            ..self
        }
    }

    /// Index at which a new consumer is registered: the first free entry, else the end.
    pub open spec fn free_entry(self, id: int) -> bool {
        &&& 0 <= id <= self.cursors.len()
        &&& id < self.cursors.len() ==> self.cursors[id] is None
        &&& forall|j: int| 0 <= j < id ==> self.cursors[j] is Some
    }
}

proof fn lemma_offset_advance(h: nat, k: nat, len: nat)
    requires
        h < len,
        k < len,
    ensures
        offset(h, advance(h, k, len), len) == k,
        advance(h, k, len) < len,
{
}

proof fn lemma_advance_offset(h: nat, i: nat, len: nat)
    requires
        h < len,
        i < len,
    ensures
        advance(h, offset(h, i, len), len) == i,
        offset(h, i, len) < len,
{
}

/// The fence slot is clear exactly when no attached consumer has `capacity` values outstanding.
pub proof fn lemma_fence<T>(m: ChannelModel<T>)
    requires
        m.inv(),
    ensures
        m.ring[m.fence() as int].is_clear() <==> !m.some_full(),
{
    let f = m.fence();
    assert forall|j: int| 0 <= j < m.cursors.len() && m.cursors[j] is Some implies (#[trigger] (m.covering(f))(
        m.cursors[j]->0,
    ) <==> m.queue(j).len() == m.capacity()) by {
        assert(m.is_live(j));
    }
    assert(m.ring[f as int].reads <= m.ring[f as int].required);
    if m.some_full() {
        let id = choose|id: int| #[trigger] m.is_live(id) && m.queue(id).len() == m.capacity();
        lemma_count_pos(m.cursors, id, m.covering(f));
    } else {
        assert forall|j: int| 0 <= j < m.cursors.len() && m.cursors[j] is Some implies !(#[trigger] (m.covering(f))(
            m.cursors[j]->0,
        )) by {
            assert(m.is_live(j));
        }
        lemma_count_none(m.cursors, m.covering(f));
    }
}

/// Publishing keeps the protocol and appends the value to every consumer's queue.
pub proof fn lemma_publish<T>(m: ChannelModel<T>, value: T)
    requires
        m.inv(),
        m.ring[m.fence() as int].is_clear(),
    ensures
        m.publish(value).inv(),
        forall|id: int| #[trigger] m.is_live(id) ==> m.publish(value).queue(id) == m.queue(id).push(value),
{
    let n = m.publish(value);
    let len = m.len();
    lemma_fence(m);
    assert forall|id: int| #[trigger] m.is_live(id) implies m.head_of(id) != m.fence() by {
        if m.head_of(id) == m.fence() {
            assert(m.queue(id).len() == m.capacity());
        }
    }
    assert forall|id: int| #[trigger] n.is_live(id) implies n.head_of(id) < n.len() by {
        assert(m.is_live(id));
    }
    assert(n.live_count() == m.live_count());
    assert forall|i: int| 0 <= i < n.len() implies {
        &&& #[trigger] n.ring[i].reads <= n.ring[i].required
        &&& n.ring[i].required - n.ring[i].reads == n.coverers(i as nat)
        &&& n.coverers(i as nat) > 0 ==> n.ring[i].val is Some
    } by {
        if i == m.tail {
            assert forall|j: int| 0 <= j < m.cursors.len() && m.cursors[j] is Some implies ((n.covering(
                i as nat,
            ))(m.cursors[j]->0) == always(m.cursors[j]->0)) by {
                assert(m.is_live(j));
            }
            lemma_count_same(m.cursors, n.covering(i as nat), |c: Cursor| always(c));
        } else {
            assert forall|j: int| 0 <= j < m.cursors.len() && m.cursors[j] is Some implies ((n.covering(
                i as nat,
            ))(m.cursors[j]->0) == (m.covering(i as nat))(m.cursors[j]->0)) by {
                assert(m.is_live(j));
            }
            lemma_count_same(m.cursors, n.covering(i as nat), m.covering(i as nat));
        }
    }
    assert forall|id: int| #[trigger] m.is_live(id) implies n.queue(id) == m.queue(id).push(value) by {
        let h = m.head_of(id);
        assert forall|k: int| 0 <= k < m.dist(h) implies #[trigger] advance(h, k as nat, len) != m.tail by {
            lemma_offset_advance(h, k as nat, len);
        }
        lemma_advance_offset(h, m.tail, len);
        assert(n.queue(id) =~= m.queue(id).push(value));
    }
}

/// The covering count of slot `i` after entry `id` changes from `cs[id]` to `x`.
proof fn lemma_count_moved(cs: Seq<Option<Cursor>>, id: int, x: Option<Cursor>, p: spec_fn(Cursor) -> bool, q: spec_fn(Cursor) -> bool)
    requires
        0 <= id < cs.len(),
        forall|j: int| 0 <= j < cs.len() && j != id && cs[j] is Some ==> (p(cs[j]->0) == q(cs[j]->0)),
    ensures
        count_where(cs.update(id, x), q) + indicator(cs[id], p) == count_where(cs, p) + indicator(x, q),
{
    let u = cs.update(id, x);
    lemma_count_update(cs, id, x, q);
    lemma_count_update(cs, id, cs[id], p);
    assert(cs.update(id, cs[id]) =~= cs);
    let v = cs.update(id, None);
    lemma_count_update(cs, id, None, p);
    lemma_count_update(cs, id, None, q);
    assert forall|j: int| 0 <= j < v.len() && v[j] is Some implies (p(v[j]->0) == q(v[j]->0)) by {}
    lemma_count_same(v, p, q);
}

/// Reading at the head keeps the protocol, pops the reader's queue and leaves the others alone.
pub proof fn lemma_consume<T>(m: ChannelModel<T>, id: int)
    requires
        m.inv(),
        m.is_live(id),
        m.queue(id).len() > 0,
    ensures
        m.ring[m.head_of(id) as int].reads < m.ring[m.head_of(id) as int].required,
        m.ring[m.head_of(id) as int].val is Some,
        m.queue(id)[0] == m.ring[m.head_of(id) as int].val->0,
        m.consume(id).inv(),
        m.consume(id).queue(id) == m.queue(id).drop_first(),
        forall|j: int| #[trigger] m.is_live(j) && j != id ==> m.consume(id).queue(j) == m.queue(j),
        m.consume(id).writers == m.writers,
        m.consume(id).readers == m.readers,
        forall|j: int| #[trigger] m.consume(id).is_live(j) == m.is_live(j),
{
    let n = m.consume(id);
    let len = m.len();
    let h = m.head_of(id);
    let h2 = next_index(h, len);
    let c = m.cursors[id]->0;
    let c2 = Some(Cursor { head: h2 as usize, ..c });
    lemma_count_pos(m.cursors, id, m.covering(h));
    assert(m.ring[h as int].reads <= m.ring[h as int].required);
    assert forall|j: int| #[trigger] n.is_live(j) == m.is_live(j) by {}
    assert forall|j: int| #[trigger] n.is_live(j) implies n.head_of(j) < n.len() by {
        assert(m.is_live(j));
    }
    lemma_count_moved(m.cursors, id, c2, |x: Cursor| always(x), |x: Cursor| always(x));
    assert forall|i: int| 0 <= i < n.len() implies {
        &&& #[trigger] n.ring[i].reads <= n.ring[i].required
        &&& n.ring[i].required - n.ring[i].reads == n.coverers(i as nat)
        &&& n.coverers(i as nat) > 0 ==> n.ring[i].val is Some
    } by {
        assert forall|j: int| 0 <= j < m.cursors.len() && j != id && m.cursors[j] is Some implies ((m.covering(
            i as nat,
        ))(m.cursors[j]->0) == (n.covering(i as nat))(m.cursors[j]->0)) by {}
        lemma_count_moved(m.cursors, id, c2, m.covering(i as nat), n.covering(i as nat));
        assert(m.ring[i].reads <= m.ring[i].required);
        if i == h {
            assert(indicator(m.cursors[id], m.covering(i as nat)) == 1);
            assert(indicator(c2, n.covering(i as nat)) == 0);
        } else {
            assert(indicator(m.cursors[id], m.covering(i as nat)) == indicator(c2, n.covering(i as nat)));
        }
    }
    assert forall|j: int| #[trigger] m.is_live(j) && j != id implies n.queue(j) == m.queue(j) by {
        let hj = m.head_of(j);
        assert forall|k: int| 0 <= k < m.dist(hj) implies n.ring[#[trigger] advance(hj, k as nat, len) as int].val
            == m.ring[advance(hj, k as nat, len) as int].val by {
            lemma_offset_advance(hj, k as nat, len);
            if advance(hj, k as nat, len) == h {
                let v = m.cursors.update(id, None);
                lemma_count_update(m.cursors, id, None, m.covering(h));
                lemma_count_pos(v, j, m.covering(h));
            }
        }
        assert(n.queue(j) =~= m.queue(j));
    }
    assert forall|k: int| 0 <= k < n.dist(h2) implies n.ring[#[trigger] advance(h2, k as nat, len) as int].val
        == m.ring[advance(h, (k + 1) as nat, len) as int].val by {
        lemma_offset_advance(h, (k + 1) as nat, len);
    }
    assert(n.queue(id) =~= m.queue(id).drop_first());
}

/// Leaving keeps the protocol and leaves every other consumer's queue alone.
pub proof fn lemma_detach<T>(m: ChannelModel<T>, id: int)
    requires
        m.inv(),
        m.is_live(id),
    ensures
        m.detach(id).inv(),
        forall|j: int| #[trigger] m.is_live(j) && j != id ==> m.detach(id).queue(j) == m.queue(j),
        forall|j: int| #[trigger] m.detach(id).is_live(j) == (m.is_live(j) && j != id),
{
    let n = m.detach(id);
    let h = m.head_of(id);
    lemma_count_pos(m.cursors, id, |c: Cursor| always(c));
    assert forall|j: int| #[trigger] n.is_live(j) == (m.is_live(j) && j != id) by {}
    assert forall|j: int| #[trigger] n.is_live(j) implies n.head_of(j) < n.len() by {
        assert(m.is_live(j));
    }
    lemma_count_moved(m.cursors, id, None, |x: Cursor| always(x), |x: Cursor| always(x));
    assert forall|i: int| 0 <= i < n.len() implies {
        &&& #[trigger] n.ring[i].reads <= n.ring[i].required
        &&& n.ring[i].required - n.ring[i].reads == n.coverers(i as nat)
        &&& n.coverers(i as nat) > 0 ==> n.ring[i].val is Some
    } by {
        assert forall|j: int| 0 <= j < m.cursors.len() && j != id && m.cursors[j] is Some implies ((m.covering(
            i as nat,
        ))(m.cursors[j]->0) == (n.covering(i as nat))(m.cursors[j]->0)) by {}
        lemma_count_moved(m.cursors, id, None, m.covering(i as nat), n.covering(i as nat));
    }
    assert forall|j: int| #[trigger] m.is_live(j) && j != id implies n.queue(j) == m.queue(j) by {
        assert(n.queue(j) =~= m.queue(j));
    }
}

/// Registering a consumer keeps the protocol; the newcomer's queue is empty and
/// every other queue is unchanged.
pub proof fn lemma_attach<T>(m: ChannelModel<T>, id: int)
    requires
        m.inv(),
        m.free_entry(id),
    ensures
        m.attach(id).inv(),
        m.attach(id).is_live(id),
        m.attach(id).queue(id) == Seq::<T>::empty(),
        forall|j: int| #[trigger] m.is_live(j) ==> m.attach(id).queue(j) == m.queue(j),
        forall|j: int| #[trigger] m.attach(id).is_live(j) == (m.is_live(j) || j == id),
{
    let n = m.attach(id);
    let c = Some(Cursor { head: m.tail as usize, closed: false });
    assert forall|j: int| #[trigger] n.is_live(j) == (m.is_live(j) || j == id) by {}
    assert forall|j: int| #[trigger] n.is_live(j) implies n.head_of(j) < n.len() by {
        if j != id {
            assert(m.is_live(j));
        }
    }
    if id == m.cursors.len() {
        lemma_count_push(m.cursors, c, |x: Cursor| always(x));
    } else {
        lemma_count_update(m.cursors, id, c, |x: Cursor| always(x));
    }
    assert forall|i: int| 0 <= i < n.len() implies {
        &&& #[trigger] n.ring[i].reads <= n.ring[i].required
        &&& n.ring[i].required - n.ring[i].reads == n.coverers(i as nat)
        &&& n.coverers(i as nat) > 0 ==> n.ring[i].val is Some
    } by {
        if id == m.cursors.len() {
            lemma_count_push(m.cursors, c, m.covering(i as nat));
        } else {
            lemma_count_update(m.cursors, id, c, m.covering(i as nat));
        }
        assert(n.covering(i as nat) =~= m.covering(i as nat));
    }
    assert forall|j: int| #[trigger] m.is_live(j) implies n.queue(j) == m.queue(j) by {
        assert(n.queue(j) =~= m.queue(j));
    }
    assert(n.queue(id) =~= Seq::<T>::empty());
}

/// The producer count plays no part in the protocol.
pub proof fn lemma_writers<T>(m: ChannelModel<T>, w: nat)
    requires
        m.inv(),
    ensures
        (ChannelModel { writers: w, ..m }).inv(),
{
    let n = ChannelModel { writers: w, ..m };
    assert forall|j: int| #[trigger] n.is_live(j) implies n.head_of(j) < n.len() by {
        assert(m.is_live(j));
    }
}

/// Latching a consumer as closed changes neither counts nor queues.
pub proof fn lemma_latch<T>(m: ChannelModel<T>, id: int)
    requires
        m.inv(),
        m.is_live(id),
    ensures
        m.latch(id).inv(),
        forall|j: int| #[trigger] m.is_live(j) ==> m.latch(id).queue(j) == m.queue(j),
        forall|j: int| #[trigger] m.latch(id).is_live(j) == m.is_live(j),
{
    let n = m.latch(id);
    let c2 = Some(Cursor { closed: true, ..m.cursors[id]->0 });
    assert forall|j: int| #[trigger] n.is_live(j) == m.is_live(j) by {}
    assert forall|j: int| #[trigger] n.is_live(j) implies n.head_of(j) < n.len() by {
        assert(m.is_live(j));
    }
    lemma_count_moved(m.cursors, id, c2, |x: Cursor| always(x), |x: Cursor| always(x));
    assert forall|i: int| 0 <= i < n.len() implies {
        &&& #[trigger] n.ring[i].reads <= n.ring[i].required
        &&& n.ring[i].required - n.ring[i].reads == n.coverers(i as nat)
        &&& n.coverers(i as nat) > 0 ==> n.ring[i].val is Some
    } by {
        lemma_count_moved(m.cursors, id, c2, m.covering(i as nat), n.covering(i as nat));
    }
    assert forall|j: int| #[trigger] m.is_live(j) implies n.queue(j) == m.queue(j) by {
        assert(n.queue(j) =~= m.queue(j));
    }
}

/// One operation on the shared state, as the model sees it.
pub enum Event<T> {
    /// A producer offers a value.
    Send(T),
    /// Consumer `id` asks for its next value.
    Recv(int),
    /// A consumer registers.
    Attach,
    /// Consumer `id` leaves.
    Detach(int),
    /// A producer registers.
    AddWriter,
    /// A producer leaves.
    RemoveWriter,
}

/// First index at or after `k` whose entry is free, or the length when none is.
pub open spec fn first_free_from(cs: Seq<Option<Cursor>>, k: int) -> int
    decreases cs.len() - k,
{
    if k < 0 || k >= cs.len() {
        cs.len() as int
    } else if cs[k] is None {
        k
    } else {
        first_free_from(cs, k + 1)
    }
}

impl<T> ChannelModel<T> {
    /// A send is accepted: a consumer is attached and the fence slot is clear.
    pub open spec fn accepts(self) -> bool {
        self.readers > 0 && self.ring[self.fence() as int].is_clear()
    }

    /// What a send of `value` reports.
    pub open spec fn send_result(self, value: T) -> Result<(), SendError<T>> {
        if self.readers == 0 {
            Err(SendError::Disconnected(value))
        } else if !self.accepts() {
            Err(SendError::Full(value))
        } else {
            Ok(())
        }
    }

    pub open spec fn is_closed(self, id: int) -> bool {
        self.cursors[id]->0.closed
    }

    /// What a receive by consumer `id` reports.
    pub open spec fn recv_outcome(self, id: int) -> Result<T, InnerRecvError> {
        if !self.is_live(id) || self.is_closed(id) {
            Err(InnerRecvError::Disconnected)
        } else if self.queue(id).len() > 0 {
            Ok(self.queue(id)[0])
        } else if self.writers == 0 {
            Err(InnerRecvError::Disconnected)
        } else {
            Err(InnerRecvError::Empty)
        }
    }

    /// Registry entry that the next consumer takes.
    pub open spec fn first_free(self) -> int {
        first_free_from(self.cursors, 0)
    }

    /// The state after event `e`.
    pub open spec fn step(self, e: Event<T>) -> ChannelModel<T> {
        match e {
            Event::Send(v) => if self.accepts() {
                self.publish(v)
            } else {
                self
            },
            Event::Recv(id) => if !self.is_live(id) || self.is_closed(id) {
                self
            } else if self.queue(id).len() > 0 {
                self.consume(id)
            } else if self.writers == 0 {
                self.latch(id)
            } else {
                self
            },
            Event::Attach => if self.readers < usize::MAX {
                self.attach(self.first_free())
            } else {
                self
            },
            Event::Detach(id) => if self.is_live(id) {
                self.detach(id)
            } else {
                self
            },
            Event::AddWriter => ChannelModel {
                writers: if self.writers < usize::MAX {
                    self.writers + 1
                } else {
                    self.writers
                },
                ..self
            },
            Event::RemoveWriter => ChannelModel {
                writers: if self.writers > 0 {
                    (self.writers - 1) as nat
                } else {
                    0
                },
                ..self
            },
        }
    }

    /// The value event `e` gets accepted into the channel, if any.
    pub open spec fn accepted_by(self, e: Event<T>) -> Seq<T> {
        match e {
            Event::Send(v) => if self.accepts() {
                seq![v]
            } else {
                Seq::empty()
            },
            _ => Seq::empty(),
        }
    }

    /// The value event `e` hands to consumer `id`, if any.
    pub open spec fn received_by(self, e: Event<T>, id: int) -> Seq<T> {
        match e {
            Event::Recv(j) => if j == id && self.recv_outcome(id) is Ok {
                seq![self.recv_outcome(id)->Ok_0]
            } else {
                Seq::empty()
            },
            _ => Seq::empty(),
        }
    }
}

/// The state after the events `es`, in order.
pub open spec fn run<T>(m: ChannelModel<T>, es: Seq<Event<T>>) -> ChannelModel<T>
    decreases es.len(),
{
    if es.len() == 0 {
        m
    } else {
        run(m.step(es[0]), es.drop_first())
    }
}

/// The values accepted along the events `es`, in order of acceptance.
pub open spec fn accepted<T>(m: ChannelModel<T>, es: Seq<Event<T>>) -> Seq<T>
    decreases es.len(),
{
    if es.len() == 0 {
        Seq::empty()
    } else {
        m.accepted_by(es[0]) + accepted(m.step(es[0]), es.drop_first())
    }
}

/// The values consumer `id` receives along the events `es`, in order.
pub open spec fn received<T>(m: ChannelModel<T>, es: Seq<Event<T>>, id: int) -> Seq<T>
    decreases es.len(),
{
    if es.len() == 0 {
        Seq::empty()
    } else {
        m.received_by(es[0], id) + received(m.step(es[0]), es.drop_first(), id)
    }
}

proof fn lemma_first_free_from(cs: Seq<Option<Cursor>>, k: int)
    requires
        0 <= k <= cs.len(),
        forall|j: int| 0 <= j < k ==> cs[j] is Some,
    ensures
        k <= first_free_from(cs, k) <= cs.len(),
        first_free_from(cs, k) < cs.len() ==> cs[first_free_from(cs, k)] is None,
        forall|j: int| 0 <= j < first_free_from(cs, k) ==> cs[j] is Some,
    decreases cs.len() - k,
{
    if k < cs.len() && cs[k] is Some {
        lemma_first_free_from(cs, k + 1);
    }
}

/// The entry a new consumer takes is free, and every entry before it is taken.
pub proof fn lemma_first_free<T>(m: ChannelModel<T>)
    ensures
        m.free_entry(m.first_free()),
{
    lemma_first_free_from(m.cursors, 0);
}

/// One event keeps the protocol, and changes the queue of a consumer that it
/// does not detach only by appending what it accepts and removing what it hands
/// to that consumer.
pub proof fn lemma_step<T>(m: ChannelModel<T>, e: Event<T>, id: int)
    requires
        m.inv(),
    ensures
        m.step(e).inv(),
        m.is_live(id) && e != Event::<T>::Detach(id) ==> {
            &&& m.step(e).is_live(id)
            &&& m.queue(id) + m.accepted_by(e) == m.received_by(e, id) + m.step(e).queue(id)
        },
{
    let n = m.step(e);
    match e {
        Event::Send(v) => {
            if m.accepts() {
                lemma_publish(m, v);
            }
            if m.is_live(id) {
                assert(m.queue(id) + m.accepted_by(e) =~= m.received_by(e, id) + n.queue(id));
            }
        },
        Event::Recv(j) => {
            if !m.is_live(j) || m.is_closed(j) {
            } else if m.queue(j).len() > 0 {
                lemma_consume(m, j);
            } else if m.writers == 0 {
                lemma_latch(m, j);
            }
            if m.is_live(id) {
                if j == id && m.recv_outcome(id) is Ok {
                    assert(m.queue(id) =~= seq![m.queue(id)[0]] + m.queue(id).drop_first());
                }
                assert(m.queue(id) + m.accepted_by(e) =~= m.received_by(e, id) + n.queue(id));
            }
        },
        Event::Attach => {
            if m.readers < usize::MAX {
                lemma_first_free(m);
                if m.first_free() == m.cursors.len() {
                    lemma_count_all(m.cursors);
                    lemma_count_le_len(m.cursors, |c: Cursor| always(c));
                }
                lemma_attach(m, m.first_free());
            }
            if m.is_live(id) {
                assert(m.queue(id) + m.accepted_by(e) =~= m.received_by(e, id) + n.queue(id));
            }
        },
        Event::Detach(j) => {
            if m.is_live(j) {
                lemma_detach(m, j);
            }
            if m.is_live(id) && j != id {
                assert(m.queue(id) + m.accepted_by(e) =~= m.received_by(e, id) + n.queue(id));
            }
        },
        Event::AddWriter => {
            lemma_writers(m, n.writers);
            if m.is_live(id) {
                assert(n.queue(id) =~= m.queue(id));
                assert(m.queue(id) + m.accepted_by(e) =~= m.received_by(e, id) + n.queue(id));
            }
        },
        Event::RemoveWriter => {
            lemma_writers(m, n.writers);
            if m.is_live(id) {
                assert(n.queue(id) =~= m.queue(id));
                assert(m.queue(id) + m.accepted_by(e) =~= m.received_by(e, id) + n.queue(id));
            }
        },
    }
}

/// A run of events keeps the protocol.
pub proof fn lemma_run_inv<T>(m: ChannelModel<T>, es: Seq<Event<T>>)
    requires
        m.inv(),
    ensures
        run(m, es).inv(),
    decreases es.len(),
{
    if es.len() > 0 {
        lemma_step(m, es[0], 0);
        lemma_run_inv(m.step(es[0]), es.drop_first());
    }
}

} // verus!
