//! A live pipeline: two resolved addresses, one filter chain, and running
//! counters.
//!
//! The pump is the only operation that mutates a pipeline, and it only
//! moves the counters forward: every event offered is ingested, and
//! exactly those events the chain delivers are handed back for sending and
//! counted as delivered — so `delivered` can never overtake `ingested`,
//! and neither counter ever decreases.

use vstd::prelude::*;

use crate::addr::Addr;
use crate::chain::FilterChain;
use crate::chain::Verdict;
use crate::chain::chain_eval;
use crate::filter::Event;
use crate::filter::Filter;

verus! {

/// Per-pipeline throughput counters.
#[derive(Clone, Copy, PartialEq, Eq, Structural, Debug)]
pub struct Stats {
    pub ingested: u64,
    pub delivered: u64,
}

impl Stats {
    /// Counters can only be consistent: nothing is delivered that was not
    /// first ingested.
    pub open spec fn wf(self) -> bool {
        self.delivered <= self.ingested
    }

    /// The counters a pipeline starts from.
    pub fn zero() -> (s: Stats)
        ensures
            s == (Stats { ingested: 0, delivered: 0 }),
            s.wf(),
    {
        Stats { ingested: 0, delivered: 0 }
    }
}

/// The events a chain lets through, in arrival order, each as transformed
/// by the chain.
pub open spec fn deliveries(fs: Seq<Filter>, evs: Seq<Event>) -> Seq<Event>
    decreases evs.len(),
{
    if evs.len() == 0 {
        Seq::empty()
    } else {
        match chain_eval(fs, evs[0]) {
            Verdict::Deliver(x) => seq![x] + deliveries(fs, evs.drop_first()),
            Verdict::Dropped => deliveries(fs, evs.drop_first()),
        }
    }
}

/// A chain never delivers more events than arrive.
pub proof fn lemma_deliveries_len(fs: Seq<Filter>, evs: Seq<Event>)
    ensures
        deliveries(fs, evs).len() <= evs.len(),
    decreases evs.len(),
{
    if evs.len() > 0 {
        lemma_deliveries_len(fs, evs.drop_first());
    }
}

/// `deliveries` distributes over concatenation of arrivals.
pub proof fn lemma_deliveries_concat(fs: Seq<Filter>, a: Seq<Event>, b: Seq<Event>)
    ensures
        deliveries(fs, a + b) == deliveries(fs, a) + deliveries(fs, b),
    decreases a.len(),
{
    if a.len() == 0 {
        assert(a + b =~= b);
        assert(deliveries(fs, a) + deliveries(fs, b) =~= deliveries(fs, b));
    } else {
        assert((a + b)[0] == a[0]);
        assert((a + b).drop_first() =~= a.drop_first() + b);
        lemma_deliveries_concat(fs, a.drop_first(), b);
        match chain_eval(fs, a[0]) {
            Verdict::Deliver(x) => {
                assert(seq![x] + (deliveries(fs, a.drop_first()) + deliveries(fs, b)) =~= (seq![x]
                    + deliveries(fs, a.drop_first())) + deliveries(fs, b));
            },
            Verdict::Dropped => {},
        }
    }
}

/// The live realization of one enabled route.
pub struct Pipeline {
    pub source: Addr,
    pub sink: Addr,
    pub chain: FilterChain,
    pub stats: Stats,
}

impl Pipeline {
    /// A freshly constructed pipeline: counters at zero, nothing pumped.
    pub fn new(source: Addr, sink: Addr, chain: FilterChain) -> (p: Pipeline)
        ensures
            p.source == source,
            p.sink == sink,
            p.chain == chain,
            p.stats == (Stats { ingested: 0, delivered: 0 }),
    {
        Pipeline { source, sink, chain, stats: Stats::zero() }
    }

    /// A consistent snapshot of the counters, reflecting every pump
    /// completed so far.
    pub fn stats(&self) -> (s: Stats)
        ensures
            s == self.stats,
    {
        self.stats
    }

    /// Move one received event through the chain.
    ///
    /// The event is ingested unconditionally.  If any filter drops it, it
    /// is discarded: nothing is handed back and `delivered` stands still.
    /// Otherwise the event, as transformed by the chain, is handed back
    /// for sending and counted as delivered.
    pub fn pump_one(&mut self, e: Event) -> (out: Option<Event>)
        requires
            old(self).stats.wf(),
            old(self).stats.ingested < u64::MAX,
        ensures
            final(self).source == old(self).source,
            final(self).sink == old(self).sink,
            final(self).chain == old(self).chain,
            final(self).stats.ingested == old(self).stats.ingested + 1,
            match chain_eval(old(self).chain.filters@, e) {
                Verdict::Deliver(x) => out == Some(x) && final(self).stats.delivered == old(
                    self,
                ).stats.delivered + 1,
                Verdict::Dropped => out == None::<Event> && final(self).stats.delivered == old(
                    self,
                ).stats.delivered,
            },
            final(self).stats.wf(),
    {
        self.stats.ingested = self.stats.ingested + 1;
        match self.chain.eval(e) {
            Verdict::Deliver(x) => {
                self.stats.delivered = self.stats.delivered + 1;
                Some(x)
            },
            Verdict::Dropped => None,
        }
    }

    /// One non-blocking pump: move every currently queued event (zero, one
    /// or many — zero is normal) through the chain.
    ///
    /// Hands back exactly the events the chain delivers, in arrival order;
    /// counters advance by the number of arrivals and deliveries, never
    /// backwards.
    pub fn pump(&mut self, incoming: &Vec<Event>) -> (out: Vec<Event>)
        requires
            old(self).stats.wf(),
            old(self).stats.ingested + incoming@.len() <= u64::MAX,
        ensures
            final(self).source == old(self).source,
            final(self).sink == old(self).sink,
            final(self).chain == old(self).chain,
            out@ == deliveries(old(self).chain.filters@, incoming@),
            final(self).stats.ingested == old(self).stats.ingested + incoming@.len(),
            final(self).stats.delivered == old(self).stats.delivered + out@.len(),
            final(self).stats.ingested >= old(self).stats.ingested,
            final(self).stats.delivered >= old(self).stats.delivered,
            final(self).stats.wf(),
    {
        let ghost fs = self.chain.filters@;
        let mut out: Vec<Event> = Vec::new();
        let n = incoming.len();
        proof {
            assert(incoming@.take(0) =~= Seq::<Event>::empty());
            assert(out@ =~= deliveries(fs, incoming@.take(0)));
        }
        for i in 0..n
            invariant
                n == incoming@.len(),
                self.source == old(self).source,
                self.sink == old(self).sink,
                self.chain == old(self).chain,
                fs == self.chain.filters@,
                self.stats.ingested == old(self).stats.ingested + i,
                out@ == deliveries(fs, incoming@.take(i as int)),
                self.stats.delivered == old(self).stats.delivered + out@.len(),
                old(self).stats.ingested + incoming@.len() <= u64::MAX,
                self.stats.wf(),
        {
            proof {
                let pre = incoming@.take(i as int);
                let one = seq![incoming@[i as int]];
                assert(incoming@.take(i + 1) =~= pre + one);
                lemma_deliveries_concat(fs, pre, one);
                assert(one.drop_first() =~= Seq::<Event>::empty());
                assert(deliveries(fs, one.drop_first()) =~= Seq::<Event>::empty());
                assert(one[0] == incoming@[i as int]);
                match chain_eval(fs, one[0]) {
                    Verdict::Deliver(x) => {
                        assert(deliveries(fs, one) =~= seq![x]);
                    },
                    Verdict::Dropped => {
                        assert(deliveries(fs, one) =~= Seq::<Event>::empty());
                    },
                }
                lemma_deliveries_len(fs, pre);
            }
            match self.pump_one(incoming[i]) {
                Some(x) => {
                    out.push(x);
                    proof {
                        assert(out@ =~= deliveries(fs, incoming@.take(i + 1)));
                    }
                },
                None => {
                    proof {
                        assert(out@ =~= deliveries(fs, incoming@.take(i + 1)));
                    }
                },
            }
        }
        proof {
            assert(incoming@.take(n as int) =~= incoming@);
        }
        out
    }
}

/// One scheduling tick: visit every pipeline exactly once, in resolver
/// order, pumping the events that arrived for it.
///
/// `arrivals[i]` is the batch queued at pipeline `i`'s source since the
/// last tick; the pipelines come back in their order, each pumped once,
/// with `outgoing[i]` the events pipeline `i` delivers for sending.  No
/// pipeline's tick disturbs another's: each entry relates to its own
/// input pipeline and batch alone.
pub fn tick(pipelines: Vec<Pipeline>, arrivals: &Vec<Vec<Event>>) -> (r: (
    Vec<Pipeline>,
    Vec<Vec<Event>>,
))
    requires
        arrivals@.len() == pipelines@.len(),
        forall|i: int|
            0 <= i < pipelines@.len() ==> (#[trigger] pipelines@[i]).stats.wf()
                && pipelines@[i].stats.ingested + arrivals@[i]@.len() <= u64::MAX,
    ensures
        r.0@.len() == pipelines@.len(),
        r.1@.len() == pipelines@.len(),
        forall|i: int|
            0 <= i < pipelines@.len() ==> {
                let p0 = pipelines@[i];
                let p1 = #[trigger] r.0@[i];
                p1.source == p0.source && p1.sink == p0.sink && p1.chain == p0.chain && r.1@[i]@
                    == deliveries(p0.chain.filters@, arrivals@[i]@) && p1.stats.ingested
                    == p0.stats.ingested + arrivals@[i]@.len() && p1.stats.delivered
                    == p0.stats.delivered + r.1@[i]@.len() && p1.stats.wf()
            },
{
    let ghost orig = pipelines@;
    let mut remaining = pipelines;
    let mut done: Vec<Pipeline> = Vec::new();
    let mut outgoing: Vec<Vec<Event>> = Vec::new();
    let n = arrivals.len();
    proof {
        assert(orig.skip(0) =~= orig);
    }
    for i in 0..n
        invariant
            n == arrivals@.len(),
            n == orig.len(),
            remaining@ == orig.skip(i as int),
            done@.len() == i,
            outgoing@.len() == i,
            forall|j: int|
                0 <= j < orig.len() ==> (#[trigger] orig[j]).stats.wf() && orig[j].stats.ingested
                    + arrivals@[j]@.len() <= u64::MAX,
            forall|j: int|
                0 <= j < i ==> {
                    let p0 = orig[j];
                    let p1 = #[trigger] done@[j];
                    p1.source == p0.source && p1.sink == p0.sink && p1.chain == p0.chain
                        && outgoing@[j]@ == deliveries(p0.chain.filters@, arrivals@[j]@)
                        && p1.stats.ingested == p0.stats.ingested + arrivals@[j]@.len()
                        && p1.stats.delivered == p0.stats.delivered + outgoing@[j]@.len()
                        && p1.stats.wf()
                },
    {
        proof {
            assert(remaining@[0] == orig[i as int]);
            assert(orig.skip(i as int).remove(0) =~= orig.skip(i + 1));
        }
        let mut p = remaining.remove(0);
        let out = p.pump(&arrivals[i]);
        done.push(p);
        outgoing.push(out);
    }
    (done, outgoing)
}

} // verus!
