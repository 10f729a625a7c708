//! Properties of the channel that relate several operations, stated over the
//! model that the contracts of [`crate::state::State`] use.

use vstd::prelude::*;

use crate::error::InnerRecvError;
use crate::model::{
    accepted, always, count_where, lemma_fence, lemma_first_free, lemma_step, received, run,
    ChannelModel, Cursor, Event,
};

verus! {

/// Sending each value of `vs` in turn.
pub open spec fn sends<T>(vs: Seq<T>) -> Seq<Event<T>> {
    Seq::new(vs.len(), |k: int| Event::Send(vs[k]))
}

/// Consumer `id` asking `n` times in a row.
pub open spec fn recvs<T>(id: int, n: nat) -> Seq<Event<T>> {
    Seq::new(n, |k: int| Event::Recv(id))
}

/// No event of `es` detaches consumer `id`.
pub open spec fn keeps<T>(es: Seq<Event<T>>, id: int) -> bool {
    forall|k: int| 0 <= k < es.len() ==> es[k] != Event::<T>::Detach(id)
}

/// Exactly-once delivery: along any events that leave consumer `id` attached,
/// what it had pending followed by every accepted value equals what it
/// received followed by what it still has pending. So each accepted value
/// reaches it once, none is lost, none is duplicated, and they come in the
/// order in which they were accepted.
pub proof fn law_delivery<T>(m: ChannelModel<T>, es: Seq<Event<T>>, id: int)
    requires
        m.inv(),
        m.is_live(id),
        keeps(es, id),
    ensures
        run(m, es).is_live(id),
        m.queue(id) + accepted(m, es) == received(m, es, id) + run(m, es).queue(id),
    decreases es.len(),
{
    if es.len() == 0 {
        assert(m.queue(id) + accepted(m, es) =~= received(m, es, id) + run(m, es).queue(id));
    } else {
        let n = m.step(es[0]);
        let rest = es.drop_first();
        assert(es[0] != Event::<T>::Detach(id));
        lemma_step(m, es[0], id);
        assert forall|k: int| 0 <= k < rest.len() implies rest[k] != Event::<T>::Detach(id) by {
            assert(rest[k] == es[k + 1]);
        }
        law_delivery(n, rest, id);
        let a0 = m.accepted_by(es[0]);
        let r0 = m.received_by(es[0], id);
        assert(m.queue(id) + (a0 + accepted(n, rest)) =~= (m.queue(id) + a0) + accepted(n, rest));
        assert((r0 + n.queue(id)) + accepted(n, rest) =~= r0 + (n.queue(id) + accepted(n, rest)));
        assert(r0 + (received(n, rest, id) + run(n, rest).queue(id)) =~= (r0 + received(n, rest, id))
            + run(n, rest).queue(id));
    }
}

/// Global order: two consumers that have the same values pending and stay
/// attached receive the accepted values in one and the same order.
pub proof fn law_global_order<T>(m: ChannelModel<T>, es: Seq<Event<T>>, i: int, j: int)
    requires
        m.inv(),
        m.is_live(i),
        m.is_live(j),
        m.queue(i) == m.queue(j),
        keeps(es, i),
        keeps(es, j),
    ensures
        received(m, es, i) + run(m, es).queue(i) == received(m, es, j) + run(m, es).queue(j),
{
    law_delivery(m, es, i);
    law_delivery(m, es, j);
}

/// New-consumer semantics: a consumer that registers now receives exactly the
/// values accepted after it registered, and none accepted before.
pub proof fn law_new_consumer<T>(m: ChannelModel<T>, es: Seq<Event<T>>)
    requires
        m.inv(),
        m.readers < usize::MAX,
        keeps(es, m.first_free()),
    ensures
        m.step(Event::Attach).queue(m.first_free()) == Seq::<T>::empty(),
        received(m.step(Event::Attach), es, m.first_free()) + run(m.step(Event::Attach), es).queue(
            m.first_free(),
        ) == accepted(m.step(Event::Attach), es),
{
    let id = m.first_free();
    let a = m.step(Event::Attach);
    lemma_step(m, Event::Attach, id);
    lemma_first_free(m);
    crate::model::lemma_attach(m, id);
    law_delivery(a, es, id);
    assert(a.queue(id) + accepted(a, es) =~= accepted(a, es));
}

/// Fence safety: with a consumer attached, a send is accepted exactly when no
/// attached consumer has `capacity` values outstanding; the fence slot is then
/// clear, with as many reads as it required.
pub proof fn law_accepts_iff_not_full<T>(m: ChannelModel<T>)
    requires
        m.inv(),
        m.readers > 0,
    ensures
        m.accepts() <==> !m.some_full(),
        m.accepts() ==> m.ring[m.fence() as int].reads == m.ring[m.fence() as int].required,
{
    lemma_fence(m);
}

/// A departing consumer never holds producers back: if every other consumer
/// has fewer than `capacity` values outstanding, the next send after it leaves
/// is not refused as full.
pub proof fn law_detach_unblocks<T>(m: ChannelModel<T>, id: int)
    requires
        m.inv(),
        m.is_live(id),
        forall|j: int| #[trigger] m.is_live(j) && j != id ==> m.queue(j).len() < m.capacity(),
    ensures
        m.step(Event::Detach(id)).readers == 0 || m.step(Event::Detach(id)).accepts(),
{
    let n = m.step(Event::Detach(id));
    crate::model::lemma_detach(m, id);
    lemma_fence(n);
    if n.some_full() {
        let j = choose|j: int| #[trigger] n.is_live(j) && n.queue(j).len() == n.capacity();
        assert(m.is_live(j) && j != id);
    }
}

proof fn lemma_some_live<T>(m: ChannelModel<T>) -> (j: int)
    requires
        m.inv(),
        m.readers > 0,
    ensures
        m.is_live(j),
{
    lemma_count_exists(m.cursors, |c: Cursor| always(c))
}

proof fn lemma_count_exists(cs: Seq<Option<Cursor>>, p: spec_fn(Cursor) -> bool) -> (j: int)
    requires
        count_where(cs, p) > 0,
    ensures
        0 <= j < cs.len(),
        cs[j] is Some,
    decreases cs.len(),
{
    if cs.len() > 0 && crate::model::indicator(cs.last(), p) > 0 {
        (cs.len() - 1) as int
    } else {
        let j = lemma_count_exists(cs.drop_last(), p);
        assert(cs[j] == cs.drop_last()[j]);
        j
    }
}

proof fn lemma_sends<T>(m: ChannelModel<T>, vs: Seq<T>, l: nat)
    requires
        m.inv(),
        m.readers > 0,
        l <= m.capacity(),
        vs.len() == m.capacity() - l + 1,
        forall|j: int| #[trigger] m.is_live(j) ==> m.queue(j).len() == l,
    ensures
        accepted(m, sends(vs)) == vs.take(m.capacity() - l),
        !run(m, sends(vs).take(m.capacity() - l)).accepts(),
        run(m, sends(vs).take(m.capacity() - l)).readers > 0,
    decreases vs.len(),
{
    let es = sends(vs);
    let e = es[0];
    let n = m.step(e);
    lemma_fence(m);
    let j = lemma_some_live(m);
    if l < m.capacity() {
        assert(!m.some_full());
        lemma_step(m, e, 0);
        crate::model::lemma_publish(m, vs[0]);
        assert forall|i: int| #[trigger] n.is_live(i) implies n.queue(i).len() == l + 1 by {
            assert(m.is_live(i));
        }
        assert(es.drop_first() =~= sends(vs.drop_first()));
        lemma_sends(n, vs.drop_first(), l + 1);
        assert(vs.take(m.capacity() - l) =~= seq![vs[0]] + vs.drop_first().take(m.capacity() - (l + 1)));
        assert(es.take(m.capacity() - l).drop_first() =~= sends(vs.drop_first()).take(m.capacity() - (l + 1)));
    } else {
        assert(m.some_full());
        assert(es.drop_first() =~= Seq::<Event<T>>::empty());
        assert(accepted(n, es.drop_first()) =~= Seq::<T>::empty());
        assert(vs.take(0) =~= Seq::<T>::empty());
        assert(es.take(0) =~= Seq::<Event<T>>::empty());
        assert(accepted(m, es) =~= Seq::<T>::empty());
    }
}

/// Capacity round trip: when no consumer has anything outstanding, the first
/// `capacity` of `capacity + 1` sends are accepted and the last is refused as full.
pub proof fn law_capacity<T>(m: ChannelModel<T>, vs: Seq<T>)
    requires
        m.inv(),
        m.readers > 0,
        forall|j: int| #[trigger] m.is_live(j) ==> m.queue(j).len() == 0,
        vs.len() == m.capacity() + 1,
    ensures
        accepted(m, sends(vs)) == vs.take(m.capacity() as int),
        !run(m, sends(vs).take(m.capacity() as int)).accepts(),
        run(m, sends(vs).take(m.capacity() as int)).readers > 0,
{
    lemma_sends(m, vs, 0);
}

proof fn lemma_drain<T>(m: ChannelModel<T>, id: int, n: nat)
    requires
        m.inv(),
        m.is_live(id),
        !m.is_closed(id),
        m.writers == 0,
        n <= m.queue(id).len(),
    ensures
        received(m, recvs(id, n), id) == m.queue(id).take(n as int),
        run(m, recvs(id, n)).inv(),
        run(m, recvs(id, n)).is_live(id),
        !run(m, recvs(id, n)).is_closed(id),
        run(m, recvs(id, n)).writers == 0,
        run(m, recvs(id, n)).queue(id) == m.queue(id).skip(n as int),
    decreases n,
{
    let es = recvs::<T>(id, n);
    if n == 0 {
        assert(m.queue(id).take(0) =~= Seq::<T>::empty());
        assert(m.queue(id).skip(0) =~= m.queue(id));
    } else {
        let k = m.step(es[0]);
        crate::model::lemma_consume(m, id);
        assert(es.drop_first() =~= recvs::<T>(id, (n - 1) as nat));
        lemma_drain(k, id, (n - 1) as nat);
        assert(m.queue(id).take(n as int) =~= seq![m.queue(id)[0]] + m.queue(id).drop_first().take(n - 1));
        assert(m.queue(id).skip(n as int) =~= m.queue(id).drop_first().skip(n - 1));
    }
}

/// Liveness under drain: with no producer left, a consumer that keeps asking
/// receives every value it had outstanding, in order, and is then told
/// `Disconnected`.
pub proof fn law_drain<T>(m: ChannelModel<T>, id: int)
    requires
        m.inv(),
        m.is_live(id),
        !m.is_closed(id),
        m.writers == 0,
    ensures
        received(m, recvs(id, m.queue(id).len()), id) == m.queue(id),
        run(m, recvs(id, m.queue(id).len())).recv_outcome(id) == Err::<T, _>(InnerRecvError::Disconnected),
{
    lemma_drain(m, id, m.queue(id).len());
    assert(m.queue(id).take(m.queue(id).len() as int) =~= m.queue(id));
}

} // verus!
