//! Events and the filters that inspect them.
//!
//! A filter is one named unit of per-event policy: given an event it either
//! passes it unchanged, drops it (ending evaluation of the chain it stands
//! in), or replaces it with a transformed event.  The set of filters is
//! closed here as an enum; a registry maps the identifiers that appear in a
//! configuration to concrete filter values.

use vstd::prelude::*;
use vstd::string::StringExecFns;

verus! {

/// One discrete control event moving through a pipeline: a channel, an
/// event kind, and two data bytes (for note-like events, `data2` carries
/// the velocity).
#[derive(Clone, Copy, PartialEq, Eq, Structural, Debug)]
pub struct Event {
    pub channel: u8,
    pub kind: u8,
    pub data1: u8,
    pub data2: u8,
}

/// What a single filter decides for a single event.
#[derive(Clone, Copy, PartialEq, Eq, Structural, Debug)]
pub enum FilterAction {
    /// Forward the event unchanged.
    Pass,
    /// Discard the event; chain evaluation stops.
    Drop,
    /// Continue with the replacement event.
    Transform(Event),
}

/// A concrete, registry-resolvable filter.
#[derive(Clone, Copy, PartialEq, Eq, Structural, Debug)]
pub enum Filter {
    /// Drop every event whose channel differs from the given one.
    ChannelOnly(u8),
    /// Rewrite every event onto the given channel.
    ChannelSet(u8),
    /// Clamp `data2` (the velocity) to the given maximum.
    VelocityClip(u8),
}

/// The decision a filter takes for an event.  Filters are pure: the
/// decision depends on the filter and the event alone.
pub open spec fn filter_action(f: Filter, e: Event) -> FilterAction {
    match f {
        Filter::ChannelOnly(c) => if e.channel == c {
            FilterAction::Pass
        } else {
            FilterAction::Drop
        },
        Filter::ChannelSet(c) => if e.channel == c {
            FilterAction::Pass
        } else {
            FilterAction::Transform(Event { channel: c, kind: e.kind, data1: e.data1, data2: e.data2 })
        },
        Filter::VelocityClip(m) => if e.data2 <= m {
            FilterAction::Pass
        } else {
            FilterAction::Transform(Event { channel: e.channel, kind: e.kind, data1: e.data1, data2: m })
        },
    }
}

impl Filter {
    /// Apply this filter to one event.
    pub fn apply(self, e: Event) -> (a: FilterAction)
        ensures
            a == filter_action(self, e),
    {
        match self {
            Filter::ChannelOnly(c) => {
                if e.channel == c {
                    FilterAction::Pass
                } else {
                    FilterAction::Drop
                }
            },
            Filter::ChannelSet(c) => {
                if e.channel == c {
                    FilterAction::Pass
                } else {
                    FilterAction::Transform(Event { channel: c, kind: e.kind, data1: e.data1, data2: e.data2 })
                }
            },
            Filter::VelocityClip(m) => {
                if e.data2 <= m {
                    FilterAction::Pass
                } else {
                    FilterAction::Transform(Event { channel: e.channel, kind: e.kind, data1: e.data1, data2: m })
                }
            },
        }
    }
}

/// The velocity ceiling that the standard `velocity-clip` filter enforces.
pub const VELOCITY_CLIP_LIMIT: u8 = 100;

/// First filter registered under `id`, if any.
pub open spec fn spec_lookup(entries: Seq<(String, Filter)>, id: Seq<char>) -> Option<Filter>
    decreases entries.len(),
{
    if entries.len() == 0 {
        None
    } else if entries[0].0@ == id {
        Some(entries[0].1)
    } else {
        spec_lookup(entries.drop_first(), id)
    }
}

/// Maps filter identifiers, as they appear in a configuration, to concrete
/// filters.  Populated at startup; the earliest registration of an
/// identifier wins.
pub struct FilterRegistry {
    pub entries: Vec<(String, Filter)>,
}

impl FilterRegistry {
    /// An empty registry: no identifier resolves.
    pub fn new() -> (r: FilterRegistry)
        ensures
            r.entries@.len() == 0,
    {
        FilterRegistry { entries: Vec::new() }
    }

    /// Register `f` under `id`.
    pub fn register(&mut self, id: String, f: Filter)
        ensures
            final(self).entries@ == old(self).entries@.push((id, f)),
    {
        self.entries.push((id, f));
    }

    /// Resolve an identifier to the first filter registered under it.
    pub fn lookup(&self, id: &String) -> (r: Option<Filter>)
        ensures
            r == spec_lookup(self.entries@, id@),
    {
        let n = self.entries.len();
        proof {
            assert(self.entries@.skip(0) =~= self.entries@);
        }
        for i in 0..n
            invariant
                n == self.entries@.len(),
                spec_lookup(self.entries@, id@) == spec_lookup(self.entries@.skip(i as int), id@),
        {
            proof {
                assert(self.entries@.skip(i as int)[0] == self.entries@[i as int]);
            }
            if self.entries[i].0 == *id {
                return Some(self.entries[i].1);
            }
            proof {
                assert(self.entries@.skip(i as int).drop_first() =~= self.entries@.skip(i + 1));
            }
        }
        None
    }

    /// The registry the router starts with: the operator-visible filter
    /// names bound to their standard meanings.
    pub fn standard() -> (r: FilterRegistry)
        ensures
            spec_lookup(r.entries@, "chan1"@) == Some(Filter::ChannelOnly(1)),
            spec_lookup(r.entries@, "to-chan1"@) == Some(Filter::ChannelSet(1)),
            spec_lookup(r.entries@, "velocity-clip"@) == Some(Filter::VelocityClip(VELOCITY_CLIP_LIMIT)),
    {
        let mut r = FilterRegistry::new();
        r.register(String::from_str("chan1"), Filter::ChannelOnly(1));
        r.register(String::from_str("to-chan1"), Filter::ChannelSet(1));
        r.register(String::from_str("velocity-clip"), Filter::VelocityClip(VELOCITY_CLIP_LIMIT));
        proof {
            reveal_strlit("chan1");
            reveal_strlit("to-chan1");
            reveal_strlit("velocity-clip");
            let s = r.entries@;
            assert("chan1"@.len() == 5);
            assert("to-chan1"@.len() == 8);
            assert("velocity-clip"@.len() == 13);
            assert(s.drop_first()[0] == s[1]);
            assert(s.drop_first().drop_first()[0] == s[2]);
            assert(spec_lookup(s, "chan1"@) == Some(Filter::ChannelOnly(1)));
            assert(spec_lookup(s, "to-chan1"@) == spec_lookup(s.drop_first(), "to-chan1"@));
            assert(spec_lookup(s.drop_first(), "to-chan1"@) == Some(Filter::ChannelSet(1)));
            assert(spec_lookup(s, "velocity-clip"@) == spec_lookup(s.drop_first(), "velocity-clip"@));
            assert(spec_lookup(s.drop_first(), "velocity-clip"@) == spec_lookup(
                s.drop_first().drop_first(),
                "velocity-clip"@,
            ));
            assert(spec_lookup(s.drop_first().drop_first(), "velocity-clip"@) == Some(
                Filter::VelocityClip(VELOCITY_CLIP_LIMIT),
            ));
        }
        r
    }
}

} // verus!
