//! Unit tests for the filter chain, the pump, address parsing and the
//! reporter.

use eventroute::addr::Addr;
use eventroute::chain::FilterChain;
use eventroute::chain::Verdict;
use eventroute::filter::Event;
use eventroute::filter::Filter;
use eventroute::filter::FilterAction;
use eventroute::filter::FilterRegistry;
use eventroute::pipeline::Pipeline;
use eventroute::report::render;
use eventroute::report::report_line;
use eventroute::report::u64_to_string;

fn ev(channel: u8, data2: u8) -> Event {
    Event { channel, kind: 9, data1: 60, data2 }
}

fn pipeline_with(filters: Vec<Filter>) -> Pipeline {
    Pipeline::new(
        Addr { client: 24, port: 0 },
        Addr { client: 20, port: 0 },
        FilterChain::new(filters),
    )
}

#[test]
fn channel_only_passes_or_drops() {
    let f = Filter::ChannelOnly(1);
    assert_eq!(f.apply(ev(1, 80)), FilterAction::Pass);
    assert_eq!(f.apply(ev(2, 80)), FilterAction::Drop);
}

#[test]
fn channel_set_rewrites_other_channels() {
    let f = Filter::ChannelSet(1);
    assert_eq!(f.apply(ev(1, 80)), FilterAction::Pass);
    assert_eq!(f.apply(ev(5, 80)), FilterAction::Transform(ev(1, 80)));
}

#[test]
fn velocity_clip_caps_data2() {
    let f = Filter::VelocityClip(100);
    assert_eq!(f.apply(ev(1, 100)), FilterAction::Pass);
    assert_eq!(f.apply(ev(1, 127)), FilterAction::Transform(ev(1, 100)));
}

#[test]
fn empty_chain_delivers_unchanged() {
    let chain = FilterChain::new(vec![]);
    assert_eq!(chain.eval(ev(3, 90)), Verdict::Deliver(ev(3, 90)));
}

#[test]
fn chain_short_circuits_on_drop() {
    let chain = FilterChain::new(vec![Filter::ChannelOnly(1), Filter::ChannelSet(7)]);
    assert_eq!(chain.eval(ev(2, 90)), Verdict::Dropped);
}

#[test]
fn chain_feeds_transforms_forward() {
    let chain = FilterChain::new(vec![Filter::ChannelSet(1), Filter::VelocityClip(100)]);
    assert_eq!(chain.eval(ev(5, 120)), Verdict::Deliver(ev(1, 100)));
}

#[test]
fn segment_order_is_observable() {
    // The same two filters in both orders: an event on channel 2 is
    // dropped when the keep-filter runs before the retune, delivered
    // otherwise.
    let keep_first = FilterChain::new(vec![Filter::ChannelOnly(1), Filter::ChannelSet(1)]);
    let retune_first = FilterChain::new(vec![Filter::ChannelSet(1), Filter::ChannelOnly(1)]);
    let e = ev(2, 80);
    assert_eq!(keep_first.eval(e), Verdict::Dropped);
    assert_eq!(retune_first.eval(e), Verdict::Deliver(ev(1, 80)));
}

#[test]
fn registry_resolves_standard_ids_and_rejects_unknown() {
    let reg = FilterRegistry::standard();
    assert_eq!(reg.lookup(&String::from("chan1")), Some(Filter::ChannelOnly(1)));
    assert_eq!(reg.lookup(&String::from("to-chan1")), Some(Filter::ChannelSet(1)));
    assert_eq!(
        reg.lookup(&String::from("velocity-clip")),
        Some(Filter::VelocityClip(100))
    );
    assert_eq!(reg.lookup(&String::from("nope")), None);
}

#[test]
fn registry_first_registration_wins() {
    let mut reg = FilterRegistry::new();
    reg.register(String::from("f"), Filter::ChannelOnly(1));
    reg.register(String::from("f"), Filter::ChannelOnly(2));
    assert_eq!(reg.lookup(&String::from("f")), Some(Filter::ChannelOnly(1)));
}

#[test]
fn pump_counts_ingested_and_delivered() {
    let mut p = pipeline_with(vec![Filter::ChannelOnly(1)]);
    let out = p.pump(&vec![ev(1, 10), ev(2, 20), ev(1, 30)]);
    assert_eq!(out, vec![ev(1, 10), ev(1, 30)]);
    let st = p.stats();
    assert_eq!(st.ingested, 3);
    assert_eq!(st.delivered, 2);
}

#[test]
fn dropped_event_is_ingested_but_not_delivered() {
    let mut p = pipeline_with(vec![Filter::ChannelOnly(1)]);
    assert_eq!(p.pump_one(ev(2, 64)), None);
    let st = p.stats();
    assert_eq!(st.ingested, 1);
    assert_eq!(st.delivered, 0);
}

#[test]
fn counters_are_monotonic_across_pumps() {
    let mut p = pipeline_with(vec![Filter::ChannelOnly(1)]);
    let mut last = p.stats();
    let batches = vec![
        vec![ev(1, 1)],
        vec![],
        vec![ev(2, 2), ev(1, 3)],
        vec![ev(2, 4)],
        vec![],
    ];
    for batch in &batches {
        p.pump(batch);
        let st = p.stats();
        assert!(st.ingested >= last.ingested);
        assert!(st.delivered >= last.delivered);
        assert!(st.delivered <= st.ingested);
        last = st;
    }
    assert_eq!(last.ingested, 4);
    assert_eq!(last.delivered, 2);
}

#[test]
fn pump_transforms_what_it_delivers() {
    let mut p = pipeline_with(vec![Filter::ChannelSet(1), Filter::VelocityClip(100)]);
    let out = p.pump(&vec![ev(9, 127)]);
    assert_eq!(out, vec![ev(1, 100)]);
}

#[test]
fn addr_parse_accepts_the_two_field_form() {
    assert_eq!(Addr::parse("24:0"), Some(Addr { client: 24, port: 0 }));
    assert_eq!(Addr::parse("0:129"), Some(Addr { client: 0, port: 129 }));
    assert_eq!(
        Addr::parse("4294967295:1"),
        Some(Addr { client: 4294967295, port: 1 })
    );
    assert_eq!(Addr::parse("007:0001"), Some(Addr { client: 7, port: 1 }));
}

#[test]
fn addr_parse_rejects_malformed_strings() {
    assert_eq!(Addr::parse(""), None);
    assert_eq!(Addr::parse("24"), None);
    assert_eq!(Addr::parse(":"), None);
    assert_eq!(Addr::parse("24:"), None);
    assert_eq!(Addr::parse(":0"), None);
    assert_eq!(Addr::parse("a:0"), None);
    assert_eq!(Addr::parse("24:x"), None);
    assert_eq!(Addr::parse("24:0:1"), None);
    assert_eq!(Addr::parse("4294967296:0"), None);
    assert_eq!(Addr::parse("24 :0"), None);
}

#[test]
fn numerals_render_exactly() {
    assert_eq!(u64_to_string(0), "0");
    assert_eq!(u64_to_string(7), "7");
    assert_eq!(u64_to_string(42), "42");
    assert_eq!(u64_to_string(1000), "1000");
    assert_eq!(u64_to_string(18446744073709551615), "18446744073709551615");
}

#[test]
fn report_renders_one_line_in_resolver_order() {
    let mut a = pipeline_with(vec![]);
    let mut b = pipeline_with(vec![Filter::ChannelOnly(1)]);
    a.pump(&vec![ev(1, 1), ev(2, 2)]);
    b.pump(&vec![ev(2, 3)]);
    let line = report_line(&vec![a, b]);
    assert_eq!(line, "0 [     2 |      2]  / 1 [     1 |      0]");
}

#[test]
fn report_of_no_pipelines_is_empty() {
    assert_eq!(render(&vec![]), "");
}

#[test]
fn wide_counters_are_not_truncated() {
    let mut p = pipeline_with(vec![]);
    let events: Vec<Event> = (0..1000u32).map(|_| ev(1, 1)).collect();
    for _ in 0..1234 {
        p.pump(&events);
    }
    let line = report_line(&vec![p]);
    assert_eq!(line, "0 [1234000 | 1234000]");
}

#[test]
fn tick_visits_every_pipeline_once_in_order() {
    let a = pipeline_with(vec![]);
    let b = pipeline_with(vec![Filter::ChannelOnly(1)]);
    let batches = vec![vec![ev(1, 5)], vec![ev(2, 6), ev(1, 7)]];
    let (pipelines, outgoing) = eventroute::pipeline::tick(vec![a, b], &batches);
    assert_eq!(outgoing, vec![vec![ev(1, 5)], vec![ev(1, 7)]]);
    assert_eq!(pipelines[0].stats().ingested, 1);
    assert_eq!(pipelines[0].stats().delivered, 1);
    assert_eq!(pipelines[1].stats().ingested, 2);
    assert_eq!(pipelines[1].stats().delivered, 1);
}
