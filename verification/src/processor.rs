//! The event processor: the single consumption point of the pipeline.
//!
//! Events submitted here are assigned monotonically increasing source ids
//! and driven, one at a time and in submission order, through the middleware
//! chain in fixed registration order. Events that a middleware asks to
//! dispatch are enqueued behind the event being processed and handled to
//! completion before `submit` returns: re-entrant dispatch is synchronous
//! and FIFO. A dispatched event carries whatever source id its creator gave
//! it — usually the id of the causing event — so no interleaving guarantee
//! relates dispatched ids to submission ids. To keep one submission from
//! looping forever on mutually dispatching middlewares, at most
//! `DISPATCH_BUDGET` dispatched events are accepted per submission; any
//! beyond that are dropped.

use crate::event::{Event, EventType, SourceId};
use crate::middleware::Middleware;
use vstd::prelude::*;

verus! {

/// The most dispatched events one submission will process.
pub const DISPATCH_BUDGET: u64 = 0xffff_ffff_ffff_ffff;

/// Total number of events emitted by a chain of middlewares.
pub open spec fn total_emitted<M: Middleware>(ms: Seq<M>) -> int
    decreases ms.len(),
{
    if ms.len() == 0 {
        0
    } else {
        total_emitted(ms.drop_last()) + ms.last().emitted().len()
    }
}

/// Replacing one middleware changes the total by the difference of its
/// emitted history.
proof fn lemma_total_emitted_update<M: Middleware>(ms: Seq<M>, i: int, m: M)
    requires
        0 <= i < ms.len(),
    ensures
        total_emitted(ms.update(i, m)) == total_emitted(ms) - ms[i].emitted().len()
            + m.emitted().len(),
    decreases ms.len(),
{
    let upd = ms.update(i, m);
    if i == ms.len() - 1 {
        assert(upd.drop_last() =~= ms.drop_last());
        assert(upd.last() == m);
    } else {
        assert(upd.drop_last() =~= ms.drop_last().update(i, m));
        assert(upd.last() == ms.last());
        lemma_total_emitted_update(ms.drop_last(), i, m);
    }
}

/// The processor: owns the middleware chain, allocates source ids for
/// submitted events, and consumes events strictly one at a time.
pub struct Processor<M: Middleware> {
    middlewares: Vec<M>,
    next_source_id: SourceId,
    consumed_log: Ghost<Seq<Event>>,
}

impl<M: Middleware> Processor<M> {
    /// The middleware chain, in registration order.
    pub closed spec fn chain(&self) -> Seq<M> {
        self.middlewares@
    }

    /// Every event consumed so far, in consumption order.
    pub closed spec fn consumed(&self) -> Seq<Event> {
        self.consumed_log@
    }

    /// The id the next submitted event will receive.
    pub closed spec fn next_sid(&self) -> SourceId {
        self.next_source_id
    }

    /// The processor's invariant: every middleware is well formed, the
    /// first middleware has observed exactly the consumed events, and each
    /// later middleware has observed exactly what its predecessor produced.
    pub closed spec fn inv(&self) -> bool {
        &&& forall|i: int| 0 <= i < self.chain().len() ==> (#[trigger] self.chain()[i]).inv()
        &&& forall|i: int|
            0 <= i < self.chain().len() ==> (#[trigger] self.chain()[i]).observed().len()
                == self.consumed().len()
        &&& forall|i: int|
            0 <= i < self.chain().len() ==> (#[trigger] self.chain()[i]).produced().len()
                == self.consumed().len()
        &&& self.chain().len() > 0 ==> self.chain()[0].observed() == self.consumed()
        &&& forall|i: int|
            1 <= i < self.chain().len() ==> (#[trigger] self.chain()[i]).observed()
                == self.chain()[i - 1].produced()
    }

    /// Every middleware observes the consumed events in consumption order,
    /// in fixed registration order per event: the first middleware observes
    /// exactly the consumed sequence, and each later one observes exactly
    /// what its predecessor produced, one event per consumed event.
    pub proof fn lemma_observation_order(&self)
        requires
            self.inv(),
        ensures
            forall|i: int|
                0 <= i < self.chain().len() ==> (#[trigger] self.chain()[i]).observed().len()
                    == self.consumed().len(),
            self.chain().len() > 0 ==> self.chain()[0].observed() == self.consumed(),
            forall|i: int|
                1 <= i < self.chain().len() ==> (#[trigger] self.chain()[i]).observed()
                    == self.chain()[i - 1].produced(),
    {
    }

    /// Read access to the middleware chain, for callers that own the
    /// middlewares' data (such as a collecting recorder).
    pub fn chain_ref(&self) -> (r: &Vec<M>)
        ensures
            r@ == self.chain(),
    {
        &self.middlewares
    }

    /// Build a processor over a chain of freshly constructed middlewares.
    /// The chain is fixed for the lifetime of the processor.
    pub fn new(middlewares: Vec<M>) -> (r: Self)
        requires
            forall|i: int|
                0 <= i < middlewares@.len() ==> (#[trigger] middlewares@[i]).inv()
                    && middlewares@[i].observed() == Seq::<Event>::empty()
                    && middlewares@[i].produced() == Seq::<Event>::empty()
                    && middlewares@[i].emitted() == Seq::<Event>::empty(),
        ensures
            r.inv(),
            r.chain() == middlewares@,
            r.consumed() == Seq::<Event>::empty(),
            r.next_sid() == 0,
    {
        Processor { middlewares, next_source_id: 0, consumed_log: Ghost(Seq::empty()) }
    }

    /// Submit one event payload: it receives the next source id and is
    /// processed through the whole chain, together with every event the
    /// middlewares dispatch along the way, before `submit` returns.
    #[verifier::rlimit(100)]
    pub fn submit(&mut self, etype: EventType) -> (sid: SourceId)
        requires
            old(self).inv(),
            old(self).next_sid() < SourceId::MAX,
        ensures
            final(self).inv(),
            final(self).chain().len() == old(self).chain().len(),
            sid == old(self).next_sid(),
            final(self).next_sid() == old(self).next_sid() + 1,
            // the consumed log grows by the submitted event first, then by
            // the dispatched events in FIFO dispatch order
            final(self).consumed().len() > old(self).consumed().len(),
            final(self).consumed().subrange(0, old(self).consumed().len() as int)
                == old(self).consumed(),
            final(self).consumed()[old(self).consumed().len() as int]
                == (Event { source_id: sid, etype }),
            // unless the dispatch budget ran out, every dispatched event
            // was consumed as an event of its own
            total_emitted(final(self).chain()) - total_emitted(old(self).chain())
                < DISPATCH_BUDGET ==> final(self).consumed().len() - old(self).consumed().len()
                == 1 + total_emitted(final(self).chain()) - total_emitted(old(self).chain()),
    {
        let ghost base_consumed = self.consumed_log@;
        let ghost base_len = self.consumed_log@.len() as int;
        let ghost base_total = total_emitted(self.middlewares@);
        let n = self.middlewares.len();

        let sid = self.next_source_id;
        self.next_source_id = sid + 1;
        let mut budget: u64 = DISPATCH_BUDGET;
        let mut queue: Vec<Event> = Vec::new();
        queue.push(Event { source_id: sid, etype });

        while queue.len() > 0
            invariant
                self.middlewares@.len() == n,
                self.inv(),
                base_len == base_consumed.len(),
                self.consumed_log@.len() >= base_len,
                self.consumed_log@.subrange(0, base_len) == base_consumed,
                self.next_source_id == sid + 1,
                self.consumed_log@.len() - base_len + queue@.len() >= 1,
                self.consumed_log@.len() == base_len ==> queue@.len() >= 1 && queue@[0]
                    == (Event { source_id: sid, etype }),
                self.consumed_log@.len() > base_len ==> self.consumed_log@[base_len]
                    == (Event { source_id: sid, etype }),
                // every accepted event is consumed or still queued
                self.consumed_log@.len() - base_len + queue@.len() == 1 + (
                DISPATCH_BUDGET - budget),
                // the budget tracks the emissions until it runs out
                DISPATCH_BUDGET - budget <= total_emitted(self.middlewares@) - base_total,
                budget > 0 ==> DISPATCH_BUDGET - budget == total_emitted(self.middlewares@)
                    - base_total,
            decreases budget + queue@.len(),
        {
            let ev = queue.remove(0);
            proof {
                self.consumed_log = Ghost(self.consumed_log@.push(ev));
                assert(self.consumed_log@.subrange(0, base_len) =~= base_consumed);
            }
            let ghost consumed_now = self.consumed_log@;

            let mut cur = ev;
            let mut mi: usize = 0;
            while mi < n
                invariant
                    0 <= mi <= n,
                    self.middlewares@.len() == n,
                    self.consumed_log@ == consumed_now,
                    consumed_now.len() >= base_len + 1,
                    base_len == base_consumed.len(),
                    base_len >= 0,
                    self.next_source_id == sid + 1,
                    forall|i: int| 0 <= i < n ==> (#[trigger] self.middlewares@[i]).inv(),
                    forall|i: int|
                        0 <= i < mi ==> (#[trigger] self.middlewares@[i]).observed().len()
                            == consumed_now.len(),
                    forall|i: int|
                        mi <= i < n ==> (#[trigger] self.middlewares@[i]).observed().len()
                            == consumed_now.len() - 1,
                    forall|i: int|
                        0 <= i < n ==> (#[trigger] self.middlewares@[i]).produced().len()
                            == self.middlewares@[i].observed().len(),
                    n > 0 ==> self.middlewares@[0].observed() == (if mi == 0 {
                        consumed_now.drop_last()
                    } else {
                        consumed_now
                    }),
                    forall|i: int|
                        1 <= i < n && i != mi ==> (#[trigger] self.middlewares@[i]).observed()
                            == self.middlewares@[i - 1].produced(),
                    1 <= mi < n ==> self.middlewares@[mi as int].observed()
                        == self.middlewares@[mi - 1].produced().drop_last(),
                    mi == 0 ==> cur == consumed_now.last(),
                    1 <= mi < n ==> cur == self.middlewares@[mi - 1].produced().last(),
                    consumed_now.len() - base_len + queue@.len() == 1 + (
                    DISPATCH_BUDGET - budget),
                    DISPATCH_BUDGET - budget <= total_emitted(self.middlewares@) - base_total,
                    budget > 0 ==> DISPATCH_BUDGET - budget == total_emitted(
                        self.middlewares@,
                    ) - base_total,
                decreases n - mi,
            {
                let ghost pre_chain = self.middlewares@;
                let ghost cur_in = cur;
                let mut mw = self.middlewares.remove(mi);
                let ghost mw_pre = mw;
                let (next_ev, emitted) = mw.next(cur);
                let ghost mw_post = mw;
                self.middlewares.insert(mi, mw);
                proof {
                    assert(mw_pre == pre_chain[mi as int]);
                    assert(self.middlewares@ =~= pre_chain.update(mi as int, mw_post));
                    assert(forall|i: int|
                        0 <= i < n && i != mi ==> self.middlewares@[i] == pre_chain[i]);
                    lemma_total_emitted_update(pre_chain, mi as int, mw_post);
                }
                cur = next_ev;
                let ghost chain_now = self.middlewares@;

                let mut em = emitted;
                proof {
                    assert(mw_post.emitted() =~= mw_pre.emitted() + em@);
                }
                while em.len() > 0
                    invariant
                        self.middlewares@ == chain_now,
                        self.consumed_log@ == consumed_now,
                        chain_now.len() == n,
                        consumed_now.len() >= base_len + 1,
                        self.next_source_id == sid + 1,
                        consumed_now.len() - base_len + queue@.len() == 1 + (DISPATCH_BUDGET
                            - budget),
                        DISPATCH_BUDGET - budget + em@.len() <= total_emitted(chain_now)
                            - base_total,
                        budget > 0 ==> DISPATCH_BUDGET - budget + em@.len() == total_emitted(
                            chain_now,
                        ) - base_total,
                    decreases em@.len(),
                {
                    let dispatched = em.remove(0);
                    if budget > 0 {
                        budget = budget - 1;
                        queue.push(dispatched);
                    }
                }

                proof {
                    // The step of middleware `mi` restores the chain relation
                    // one position further down.
                    let newc = self.middlewares@;
                    assert(newc == chain_now);
                    assert(newc[mi as int] == mw_post);
                    assert(mw_post.observed() == mw_pre.observed().push(cur_in));
                    assert(mw_post.produced() == mw_pre.produced().push(cur));
                    if mi == 0 {
                        assert(n > 0);
                        assert(mw_pre.observed() == consumed_now.drop_last());
                        assert(cur_in == consumed_now.last());
                        assert(consumed_now.drop_last().push(consumed_now.last())
                            =~= consumed_now);
                        assert(newc[0].observed() == consumed_now);
                    } else {
                        assert(newc[0].observed() == consumed_now);
                        assert(mw_pre.observed() == pre_chain[mi - 1].produced().drop_last());
                        assert(cur_in == pre_chain[mi - 1].produced().last());
                        assert(pre_chain[mi - 1].produced().drop_last().push(
                            pre_chain[mi - 1].produced().last()) =~= pre_chain[mi
                            - 1].produced());
                        assert(newc[mi - 1].produced() == pre_chain[mi - 1].produced());
                        assert(newc[mi as int].observed() == newc[mi - 1].produced());
                    }
                    if mi + 1 < n {
                        assert(newc[mi + 1].observed() == pre_chain[mi + 1].observed());
                        assert(pre_chain[mi + 1].observed() == pre_chain[mi as int].produced());
                        assert(mw_post.produced().drop_last() =~= mw_pre.produced());
                        assert(newc[mi + 1].observed() == newc[mi as int].produced()
                            .drop_last());
                        assert(cur == newc[mi as int].produced().last());
                    }
                    assert(forall|i: int|
                        0 <= i < mi + 1 ==> (#[trigger] newc[i]).observed().len()
                            == consumed_now.len());
                    assert(forall|i: int|
                        mi + 1 <= i < n ==> (#[trigger] newc[i]).observed().len()
                            == consumed_now.len() - 1);
                    assert forall|i: int|
                        1 <= i < n && i != mi + 1 implies (#[trigger] newc[i]).observed()
                        == newc[i - 1].produced() by {
                        if i < mi {
                            assert(newc[i] == pre_chain[i]);
                            assert(newc[i - 1] == pre_chain[i - 1]);
                        } else if i == mi {
                            assert(i >= 1);
                        } else {
                            assert(i > mi + 1);
                            assert(newc[i] == pre_chain[i]);
                            assert(newc[i - 1] == pre_chain[i - 1]);
                        }
                    }
                }
                mi += 1;
            }
        }
        proof {
            assert(self.consumed_log@.len() > base_len);
        }
        sid
    }
}

} // verus!
