//! Ordered, short-circuiting composition of filters.
//!
//! A chain is evaluated strictly left to right.  The first filter to drop
//! the event ends evaluation; otherwise each transform feeds the next
//! filter, and the event that leaves the last filter is delivered.

use vstd::prelude::*;

use crate::filter::Event;
use crate::filter::Filter;
use crate::filter::FilterAction;
use crate::filter::filter_action;

verus! {

/// A chain's net decision for one event.
#[derive(Clone, Copy, PartialEq, Eq, Structural, Debug)]
pub enum Verdict {
    /// The event (as transformed along the way) reaches the sink.
    Deliver(Event),
    /// Some filter dropped the event; nothing reaches the sink.
    Dropped,
}

/// Left-to-right evaluation of a chain, short-circuiting on drop.
pub open spec fn chain_eval(fs: Seq<Filter>, e: Event) -> Verdict
    decreases fs.len(),
{
    if fs.len() == 0 {
        Verdict::Deliver(e)
    } else {
        match filter_action(fs[0], e) {
            FilterAction::Pass => chain_eval(fs.drop_first(), e),
            FilterAction::Drop => Verdict::Dropped,
            FilterAction::Transform(e2) => chain_eval(fs.drop_first(), e2),
        }
    }
}

/// An ordered sequence of filters applied to every event on one pipeline.
pub struct FilterChain {
    pub filters: Vec<Filter>,
}

impl FilterChain {
    /// Build a chain over the given filters, in the given order.
    pub fn new(filters: Vec<Filter>) -> (r: FilterChain)
        ensures
            r.filters@ == filters@,
    {
        FilterChain { filters }
    }

    /// Number of filters in the chain.
    pub fn len(&self) -> (n: usize)
        ensures
            n == self.filters@.len(),
    {
        self.filters.len()
    }

    /// Evaluate the chain on one event.
    pub fn eval(&self, e: Event) -> (v: Verdict)
        ensures
            v == chain_eval(self.filters@, e),
    {
        let mut cur = e;
        let n = self.filters.len();
        proof {
            assert(self.filters@.skip(0) =~= self.filters@);
        }
        for i in 0..n
            invariant
                n == self.filters@.len(),
                chain_eval(self.filters@, e) == chain_eval(self.filters@.skip(i as int), cur),
        {
            proof {
                assert(self.filters@.skip(i as int)[0] == self.filters@[i as int]);
                assert(self.filters@.skip(i as int).drop_first() =~= self.filters@.skip(i + 1));
            }
            match self.filters[i].apply(cur) {
                FilterAction::Pass => {},
                FilterAction::Drop => {
                    return Verdict::Dropped;
                },
                FilterAction::Transform(e2) => {
                    cur = e2;
                },
            }
        }
        proof {
            assert(self.filters@.skip(n as int) =~= Seq::<Filter>::empty());
        }
        Verdict::Deliver(cur)
    }
}

/// Evaluating a concatenation runs the left part first; only an event the
/// left part delivers ever reaches the right part.
pub proof fn lemma_chain_eval_concat(a: Seq<Filter>, b: Seq<Filter>, e: Event)
    ensures
        chain_eval(a + b, e) == (match chain_eval(a, e) {
            Verdict::Deliver(x) => chain_eval(b, x),
            Verdict::Dropped => Verdict::Dropped,
        }),
    decreases a.len(),
{
    if a.len() == 0 {
        assert(a + b =~= b);
    } else {
        assert((a + b)[0] == a[0]);
        assert((a + b).drop_first() =~= a.drop_first() + b);
        match filter_action(a[0], e) {
            FilterAction::Pass => {
                lemma_chain_eval_concat(a.drop_first(), b, e);
            },
            FilterAction::Drop => {},
            FilterAction::Transform(e2) => {
                lemma_chain_eval_concat(a.drop_first(), b, e2);
            },
        }
    }
}

/// Once a filter in a chain drops the event it is given, the chain's
/// verdict is `Dropped`, and no filter after it matters: any continuation
/// of the chain beyond that filter yields the same verdict.
pub proof fn lemma_drop_short_circuits(fs: Seq<Filter>, rest: Seq<Filter>, e: Event, i: int, ei: Event)
    requires
        0 <= i < fs.len(),
        chain_eval(fs.take(i), e) == Verdict::Deliver(ei),
        filter_action(fs[i], ei) == FilterAction::Drop,
    ensures
        chain_eval(fs, e) == Verdict::Dropped,
        chain_eval(fs.take(i + 1) + rest, e) == Verdict::Dropped,
{
    let pre = fs.take(i);
    let one = seq![fs[i]];
    assert(chain_eval(one, ei) == Verdict::Dropped);
    assert(fs.take(i + 1) =~= pre + one);
    lemma_chain_eval_concat(pre, one, e);
    assert(chain_eval(fs.take(i + 1), e) == Verdict::Dropped);
    assert(fs =~= fs.take(i + 1) + fs.skip(i + 1));
    lemma_chain_eval_concat(fs.take(i + 1), fs.skip(i + 1), e);
    lemma_chain_eval_concat(fs.take(i + 1), rest, e);
}

} // verus!
