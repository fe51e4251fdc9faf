//! Turning declared routes into live pipelines.
//!
//! Each enabled route yields at most one pipeline.  A route that cannot be
//! materialized — an endpoint that does not resolve, a missing or
//! unparsable address, an unknown filter identifier — yields one diagnosis
//! instead and is skipped; the remaining routes are resolved unaffected.
//! Pipelines come back in the same relative order as their routes.

use vstd::prelude::*;

use crate::addr::Addr;
use crate::addr::spec_parse_addr;
use crate::chain::FilterChain;
use crate::config::Device;
use crate::config::DeviceView;
use crate::config::Route;
use crate::config::RouteView;
use crate::config::dev_views;
use crate::config::find_device;
use crate::config::find_device_in;
use crate::config::route_views;
use crate::filter::Filter;
use crate::filter::FilterRegistry;
use crate::filter::spec_lookup;
use crate::pipeline::Pipeline;
use crate::pipeline::Stats;

verus! {

/// Why one route yielded no pipeline.
#[derive(Clone, Copy, PartialEq, Eq, Structural, Debug)]
pub enum Reason {
    /// The source name resolved to no device.
    SourceMissing,
    /// The sink name resolved to no device.
    SinkMissing,
    /// The source device declares no input address.
    NoInputAddress,
    /// The sink device declares no output address.
    NoOutputAddress,
    /// The source device's input address does not parse.
    BadSourceAddress,
    /// The sink device's output address does not parse.
    BadSinkAddress,
    /// A filter identifier on the route's chain is not registered.
    UnknownFilter,
}

/// One route's resolution failure: the route's identity (source → sink),
/// the reason, and the subject the reason speaks of — the device name for
/// a missing device or address, the raw text for an unparsable address,
/// the identifier for an unknown filter.
pub struct Diagnosis {
    pub source: String,
    pub sink: String,
    pub subject: String,
    pub reason: Reason,
}

/// The abstract value of a [`Diagnosis`].
pub struct DiagnosisView {
    pub source: Seq<char>,
    pub sink: Seq<char>,
    pub subject: Seq<char>,
    pub reason: Reason,
}

impl View for Diagnosis {
    type V = DiagnosisView;

    open spec fn view(&self) -> DiagnosisView {
        DiagnosisView {
            source: self.source@,
            sink: self.sink@,
            subject: self.subject@,
            reason: self.reason,
        }
    }
}

/// The abstract values of a sequence of diagnoses.
pub open spec fn diag_views(ds: Seq<Diagnosis>) -> Seq<DiagnosisView> {
    ds.map_values(|d: Diagnosis| d@)
}

/// The filters the given identifiers resolve to, in order, or the first
/// identifier that resolves to none.
pub open spec fn resolve_ids(reg: Seq<(String, Filter)>, ids: Seq<Seq<char>>) -> Result<
    Seq<Filter>,
    Seq<char>,
>
    decreases ids.len(),
{
    if ids.len() == 0 {
        Ok(Seq::empty())
    } else {
        match spec_lookup(reg, ids[0]) {
            None => Err(ids[0]),
            Some(f) => match resolve_ids(reg, ids.drop_first()) {
                Ok(rest) => Ok(seq![f] + rest),
                Err(bad) => Err(bad),
            },
        }
    }
}

/// A resolved chain keeps the declared order exactly: position by
/// position, each filter is what its identifier resolves to.
pub proof fn lemma_resolve_ids_pointwise(reg: Seq<(String, Filter)>, ids: Seq<Seq<char>>)
    requires
        resolve_ids(reg, ids) is Ok,
    ensures
        resolve_ids(reg, ids)->Ok_0.len() == ids.len(),
        forall|i: int|
            0 <= i < ids.len() ==> spec_lookup(reg, #[trigger] ids[i]) == Some(
                resolve_ids(reg, ids)->Ok_0[i],
            ),
    decreases ids.len(),
{
    if ids.len() > 0 {
        lemma_resolve_ids_pointwise(reg, ids.drop_first());
        assert(forall|i: int| 1 <= i < ids.len() ==> ids.drop_first()[i - 1] == #[trigger] ids[i]);
    }
}

/// The identifier chain one route asks for: the source device's
/// input-side filters, then the route's own, then the sink device's
/// output-side filters.
pub open spec fn chain_ids(sd: DeviceView, rv: RouteView, kd: DeviceView) -> Seq<Seq<char>> {
    sd.input_filters + rv.filters + kd.output_filters
}

/// What resolving one route comes to: the pipeline's ingredients, or the
/// reason and subject of its diagnosis.
pub open spec fn route_outcome(rv: RouteView, devs: Seq<DeviceView>, reg: Seq<(String, Filter)>) -> Result<
    (Addr, Addr, Seq<Filter>),
    (Reason, Seq<char>),
> {
    match find_device(devs, rv.source) {
        None => Err((Reason::SourceMissing, rv.source)),
        Some(sd) => match find_device(devs, rv.sink) {
            None => Err((Reason::SinkMissing, rv.sink)),
            Some(kd) => match sd.input {
                None => Err((Reason::NoInputAddress, rv.source)),
                Some(instr) => match kd.output {
                    None => Err((Reason::NoOutputAddress, rv.sink)),
                    Some(outstr) => match spec_parse_addr(instr) {
                        None => Err((Reason::BadSourceAddress, instr)),
                        Some(saddr) => match spec_parse_addr(outstr) {
                            None => Err((Reason::BadSinkAddress, outstr)),
                            Some(kaddr) => match resolve_ids(reg, chain_ids(sd, rv, kd)) {
                                Err(bad) => Err((Reason::UnknownFilter, bad)),
                                Ok(fs) => Ok((saddr, kaddr, fs)),
                            },
                        },
                    },
                },
            },
        },
    }
}

/// The pipelines the routes resolve to, in route order: one for each
/// enabled route whose outcome is good.
pub open spec fn resolved_pipes(routes: Seq<RouteView>, devs: Seq<DeviceView>, reg: Seq<(String, Filter)>) -> Seq<
    (Addr, Addr, Seq<Filter>),
>
    decreases routes.len(),
{
    if routes.len() == 0 {
        Seq::empty()
    } else {
        let rest = resolved_pipes(routes.drop_first(), devs, reg);
        if routes[0].enabled {
            match route_outcome(routes[0], devs, reg) {
                Ok(t) => seq![t] + rest,
                Err(_) => rest,
            }
        } else {
            rest
        }
    }
}

/// The diagnoses the routes give rise to, in route order: one for each
/// enabled route whose outcome is bad.  A disabled route is skipped in
/// silence.
pub open spec fn diag_list(routes: Seq<RouteView>, devs: Seq<DeviceView>, reg: Seq<(String, Filter)>) -> Seq<
    DiagnosisView,
>
    decreases routes.len(),
{
    if routes.len() == 0 {
        Seq::empty()
    } else {
        let rest = diag_list(routes.drop_first(), devs, reg);
        if routes[0].enabled {
            match route_outcome(routes[0], devs, reg) {
                Ok(_) => rest,
                Err(e) => seq![
                    DiagnosisView {
                        source: routes[0].source,
                        sink: routes[0].sink,
                        subject: e.1,
                        reason: e.0,
                    },
                ] + rest,
            }
        } else {
            rest
        }
    }
}

/// `resolved_pipes` distributes over concatenation of routes.
pub proof fn lemma_resolved_pipes_concat(
    a: Seq<RouteView>,
    b: Seq<RouteView>,
    devs: Seq<DeviceView>,
    reg: Seq<(String, Filter)>,
)
    ensures
        resolved_pipes(a + b, devs, reg) == resolved_pipes(a, devs, reg) + resolved_pipes(
            b,
            devs,
            reg,
        ),
    decreases a.len(),
{
    if a.len() == 0 {
        assert(a + b =~= b);
        assert(resolved_pipes(a, devs, reg) + resolved_pipes(b, devs, reg) =~= resolved_pipes(
            b,
            devs,
            reg,
        ));
    } else {
        assert((a + b)[0] == a[0]);
        assert((a + b).drop_first() =~= a.drop_first() + b);
        lemma_resolved_pipes_concat(a.drop_first(), b, devs, reg);
        if a[0].enabled {
            match route_outcome(a[0], devs, reg) {
                Ok(t) => {
                    assert(seq![t] + (resolved_pipes(a.drop_first(), devs, reg) + resolved_pipes(
                        b,
                        devs,
                        reg,
                    )) =~= (seq![t] + resolved_pipes(a.drop_first(), devs, reg)) + resolved_pipes(
                        b,
                        devs,
                        reg,
                    ));
                },
                Err(_) => {},
            }
        }
    }
}

/// `diag_list` distributes over concatenation of routes.
pub proof fn lemma_diag_list_concat(
    a: Seq<RouteView>,
    b: Seq<RouteView>,
    devs: Seq<DeviceView>,
    reg: Seq<(String, Filter)>,
)
    ensures
        diag_list(a + b, devs, reg) == diag_list(a, devs, reg) + diag_list(b, devs, reg),
    decreases a.len(),
{
    if a.len() == 0 {
        assert(a + b =~= b);
        assert(diag_list(a, devs, reg) + diag_list(b, devs, reg) =~= diag_list(b, devs, reg));
    } else {
        assert((a + b)[0] == a[0]);
        assert((a + b).drop_first() =~= a.drop_first() + b);
        lemma_diag_list_concat(a.drop_first(), b, devs, reg);
        if a[0].enabled {
            match route_outcome(a[0], devs, reg) {
                Ok(_) => {},
                Err(e) => {
                    let d = DiagnosisView {
                        source: a[0].source,
                        sink: a[0].sink,
                        subject: e.1,
                        reason: e.0,
                    };
                    assert(seq![d] + (diag_list(a.drop_first(), devs, reg) + diag_list(
                        b,
                        devs,
                        reg,
                    )) =~= (seq![d] + diag_list(a.drop_first(), devs, reg)) + diag_list(
                        b,
                        devs,
                        reg,
                    ));
                },
            }
        }
    }
}

/// A disabled route contributes nothing: neither a pipeline nor a
/// diagnosis, whatever its devices and addresses look like, and the other
/// routes resolve exactly as they would without it.
pub proof fn lemma_disabled_route_contributes_nothing(
    routes: Seq<RouteView>,
    devs: Seq<DeviceView>,
    reg: Seq<(String, Filter)>,
    i: int,
)
    requires
        0 <= i < routes.len(),
        !routes[i].enabled,
    ensures
        resolved_pipes(routes, devs, reg) == resolved_pipes(routes.take(i), devs, reg)
            + resolved_pipes(routes.skip(i + 1), devs, reg),
        diag_list(routes, devs, reg) == diag_list(routes.take(i), devs, reg) + diag_list(
            routes.skip(i + 1),
            devs,
            reg,
        ),
{
    let one = seq![routes[i]];
    assert(routes =~= routes.take(i) + (one + routes.skip(i + 1)));
    assert((one + routes.skip(i + 1)).drop_first() =~= routes.skip(i + 1));
    assert((one + routes.skip(i + 1))[0] == routes[i]);
    lemma_resolved_pipes_concat(routes.take(i), one + routes.skip(i + 1), devs, reg);
    lemma_diag_list_concat(routes.take(i), one + routes.skip(i + 1), devs, reg);
}

/// An enabled route whose source device has no input address yields no
/// pipeline but exactly one diagnosis, citing the source device and the
/// input side; the other routes resolve exactly as they would without it.
pub proof fn lemma_source_without_input(
    routes: Seq<RouteView>,
    devs: Seq<DeviceView>,
    reg: Seq<(String, Filter)>,
    i: int,
)
    requires
        0 <= i < routes.len(),
        routes[i].enabled,
        find_device(devs, routes[i].source) matches Some(sd) && sd.input is None,
        find_device(devs, routes[i].sink) is Some,
    ensures
        resolved_pipes(routes, devs, reg) == resolved_pipes(routes.take(i), devs, reg)
            + resolved_pipes(routes.skip(i + 1), devs, reg),
        diag_list(routes, devs, reg) == diag_list(routes.take(i), devs, reg) + seq![
            DiagnosisView {
                source: routes[i].source,
                sink: routes[i].sink,
                subject: routes[i].source,
                reason: Reason::NoInputAddress,
            },
        ] + diag_list(routes.skip(i + 1), devs, reg),
{
    let one = seq![routes[i]];
    assert(routes =~= routes.take(i) + (one + routes.skip(i + 1)));
    assert((one + routes.skip(i + 1)).drop_first() =~= routes.skip(i + 1));
    assert((one + routes.skip(i + 1))[0] == routes[i]);
    lemma_resolved_pipes_concat(routes.take(i), one + routes.skip(i + 1), devs, reg);
    lemma_diag_list_concat(routes.take(i), one + routes.skip(i + 1), devs, reg);
    let d = DiagnosisView {
        source: routes[i].source,
        sink: routes[i].sink,
        subject: routes[i].source,
        reason: Reason::NoInputAddress,
    };
    assert(route_outcome(routes[i], devs, reg) == Err::<(Addr, Addr, Seq<Filter>), _>((
        Reason::NoInputAddress,
        routes[i].source,
    )));
    assert(diag_list(one + routes.skip(i + 1), devs, reg) == seq![d] + diag_list(
        routes.skip(i + 1),
        devs,
        reg,
    ));
    assert(diag_list(routes.take(i), devs, reg) + (seq![d] + diag_list(
        routes.skip(i + 1),
        devs,
        reg,
    )) =~= diag_list(routes.take(i), devs, reg) + seq![d] + diag_list(
        routes.skip(i + 1),
        devs,
        reg,
    ));
}

/// What resolution leaves behind: the live pipelines, in route order, and
/// one diagnosis per route that could not be materialized.
pub struct Resolution {
    pub pipelines: Vec<Pipeline>,
    pub diagnoses: Vec<Diagnosis>,
}

/// Resolve every identifier of a route's chain, or name the first one
/// that is not registered.
fn lookup_all(registry: &FilterRegistry, ids: &Vec<String>) -> (r: Result<Vec<Filter>, String>)
    ensures
        match r {
            Ok(fs) => resolve_ids(registry.entries@, ids@.map_values(|s: String| s@)) == Ok::<
                _,
                Seq<char>,
            >(fs@),
            Err(bad) => resolve_ids(registry.entries@, ids@.map_values(|s: String| s@)) == Err::<
                Seq<Filter>,
                _,
            >(bad@),
        },
{
    let ghost idv = ids@.map_values(|s: String| s@);
    let mut fs: Vec<Filter> = Vec::new();
    let n = ids.len();
    proof {
        assert(idv.skip(0) =~= idv);
        assert(fs@ + Seq::<Filter>::empty() =~= fs@);
    }
    for i in 0..n
        invariant
            n == ids@.len(),
            idv == ids@.map_values(|s: String| s@),
            resolve_ids(registry.entries@, idv) == (match resolve_ids(
                registry.entries@,
                idv.skip(i as int),
            ) {
                Ok(rest) => Ok::<_, Seq<char>>(fs@ + rest),
                Err(bad) => Err(bad),
            }),
    {
        proof {
            assert(idv.skip(i as int)[0] == idv[i as int]);
            assert(idv.skip(i as int).drop_first() =~= idv.skip(i + 1));
        }
        match registry.lookup(&ids[i]) {
            Some(f) => {
                let ghost fs0 = fs@;
                fs.push(f);
                proof {
                    match resolve_ids(registry.entries@, idv.skip(i + 1)) {
                        Ok(rest) => {
                            assert(fs0 + (seq![f] + rest) =~= fs@ + rest);
                        },
                        Err(_) => {},
                    }
                }
            },
            None => {
                return Err(ids[i].clone());
            },
        }
    }
    proof {
        assert(idv.skip(n as int) =~= Seq::<Seq<char>>::empty());
        assert(fs@ + Seq::<Filter>::empty() =~= fs@);
    }
    Ok(fs)
}

/// Append clones of `part` to `ids`.
fn push_ids(ids: &mut Vec<String>, part: &Vec<String>)
    ensures
        final(ids)@.map_values(|s: String| s@) == old(ids)@.map_values(|s: String| s@)
            + part@.map_values(|s: String| s@),
{
    let n = part.len();
    proof {
        assert(part@.map_values(|s: String| s@).take(0) =~= Seq::<Seq<char>>::empty());
        assert(ids@.map_values(|s: String| s@) =~= old(ids)@.map_values(|s: String| s@) + part@.map_values(
            |s: String| s@,
        ).take(0));
    }
    for i in 0..n
        invariant
            n == part@.len(),
            ids@.map_values(|s: String| s@) == old(ids)@.map_values(|s: String| s@)
                + part@.map_values(|s: String| s@).take(i as int),
    {
        let cloned = part[i].clone();
        let ghost ids0 = ids@;
        ids.push(cloned);
        proof {
            let f = |s: String| s@;
            assert(ids@.map_values(f) =~= ids0.map_values(f).push(cloned@));
            assert(part@.map_values(f).take(i + 1) =~= part@.map_values(f).take(i as int).push(
                part@[i as int]@,
            ));
            assert(ids@.map_values(f) =~= old(ids)@.map_values(f) + part@.map_values(f).take(i + 1));
        }
    }
    proof {
        assert(part@.map_values(|s: String| s@).take(n as int) =~= part@.map_values(
            |s: String| s@,
        ));
    }
}

/// Resolve one enabled route into a pipeline, or explain why not.
fn resolve_route(route: &Route, devices: &Vec<Device>, registry: &FilterRegistry) -> (r: Result<
    Pipeline,
    Diagnosis,
>)
    ensures
        match r {
            Ok(p) => route_outcome(route@, dev_views(devices@), registry.entries@) matches Ok(t)
                && p.source == t.0 && p.sink == t.1 && p.chain.filters@ == t.2 && p.stats == (Stats {
                ingested: 0,
                delivered: 0,
            }),
            Err(d) => route_outcome(route@, dev_views(devices@), registry.entries@) matches Err(e)
                && d@.reason == e.0 && d@.subject == e.1 && d@.source == route@.source && d@.sink
                == route@.sink,
        },
{
    let source_dev = match find_device_in(devices, &route.source) {
        Some(d) => d,
        None => {
            return Err(
                Diagnosis {
                    source: route.source.clone(),
                    sink: route.sink.clone(),
                    subject: route.source.clone(),
                    reason: Reason::SourceMissing,
                },
            );
        },
    };
    let sink_dev = match find_device_in(devices, &route.sink) {
        Some(d) => d,
        None => {
            return Err(
                Diagnosis {
                    source: route.source.clone(),
                    sink: route.sink.clone(),
                    subject: route.sink.clone(),
                    reason: Reason::SinkMissing,
                },
            );
        },
    };
    let in_str = match &source_dev.input {
        Some(s) => s,
        None => {
            return Err(
                Diagnosis {
                    source: route.source.clone(),
                    sink: route.sink.clone(),
                    subject: route.source.clone(),
                    reason: Reason::NoInputAddress,
                },
            );
        },
    };
    let out_str = match &sink_dev.output {
        Some(s) => s,
        None => {
            return Err(
                Diagnosis {
                    source: route.source.clone(),
                    sink: route.sink.clone(),
                    subject: route.sink.clone(),
                    reason: Reason::NoOutputAddress,
                },
            );
        },
    };
    let source_addr = match Addr::parse(in_str.as_str()) {
        Some(a) => a,
        None => {
            return Err(
                Diagnosis {
                    source: route.source.clone(),
                    sink: route.sink.clone(),
                    subject: in_str.clone(),
                    reason: Reason::BadSourceAddress,
                },
            );
        },
    };
    let sink_addr = match Addr::parse(out_str.as_str()) {
        Some(a) => a,
        None => {
            return Err(
                Diagnosis {
                    source: route.source.clone(),
                    sink: route.sink.clone(),
                    subject: out_str.clone(),
                    reason: Reason::BadSinkAddress,
                },
            );
        },
    };
    let mut ids: Vec<String> = Vec::new();
    proof {
        assert(ids@.map_values(|s: String| s@) =~= Seq::<Seq<char>>::empty());
    }
    push_ids(&mut ids, &source_dev.input_filters);
    push_ids(&mut ids, &route.filters);
    push_ids(&mut ids, &sink_dev.output_filters);
    proof {
        let f = |s: String| s@;
        assert(Seq::<Seq<char>>::empty() + source_dev.input_filters@.map_values(f)
            =~= source_dev.input_filters@.map_values(f));
        assert(ids@.map_values(f) =~= chain_ids(source_dev@, route@, sink_dev@));
    }
    let filters = match lookup_all(registry, &ids) {
        Ok(fs) => fs,
        Err(bad) => {
            return Err(
                Diagnosis {
                    source: route.source.clone(),
                    sink: route.sink.clone(),
                    subject: bad,
                    reason: Reason::UnknownFilter,
                },
            );
        },
    };
    let chain = FilterChain::new(filters);
    Ok(Pipeline::new(source_addr, sink_addr, chain))
}

/// Resolve every route, in declaration order.
///
/// One bad route never prevents the others from becoming live: each
/// enabled route independently becomes a pipeline or a diagnosis, and a
/// disabled route is skipped in silence.
pub fn resolve(routes: &Vec<Route>, devices: &Vec<Device>, registry: &FilterRegistry) -> (r:
    Resolution)
    ensures
        r.pipelines@.len() == resolved_pipes(
            route_views(routes@),
            dev_views(devices@),
            registry.entries@,
        ).len(),
        forall|i: int|
            0 <= i < r.pipelines@.len() ==> {
                let t = resolved_pipes(route_views(routes@), dev_views(devices@), registry.entries@)[i];
                (#[trigger] r.pipelines@[i]).source == t.0 && r.pipelines@[i].sink == t.1
                    && r.pipelines@[i].chain.filters@ == t.2 && r.pipelines@[i].stats == (Stats {
                    ingested: 0,
                    delivered: 0,
                })
            },
        diag_views(r.diagnoses@) == diag_list(
            route_views(routes@),
            dev_views(devices@),
            registry.entries@,
        ),
{
    let ghost rvs = route_views(routes@);
    let ghost devs = dev_views(devices@);
    let ghost reg = registry.entries@;
    let mut pipelines: Vec<Pipeline> = Vec::new();
    let mut diagnoses: Vec<Diagnosis> = Vec::new();
    let n = routes.len();
    proof {
        assert(rvs.take(0) =~= Seq::<RouteView>::empty());
        assert(pipelines@.len() == resolved_pipes(rvs.take(0), devs, reg).len());
        assert(diag_views(diagnoses@) =~= diag_list(rvs.take(0), devs, reg));
    }
    for i in 0..n
        invariant
            n == routes@.len(),
            rvs == route_views(routes@),
            devs == dev_views(devices@),
            reg == registry.entries@,
            rvs.len() == n,
            pipelines@.len() == resolved_pipes(rvs.take(i as int), devs, reg).len(),
            forall|j: int|
                0 <= j < pipelines@.len() ==> {
                    let t = resolved_pipes(rvs.take(i as int), devs, reg)[j];
                    (#[trigger] pipelines@[j]).source == t.0 && pipelines@[j].sink == t.1
                        && pipelines@[j].chain.filters@ == t.2 && pipelines@[j].stats == (Stats {
                        ingested: 0,
                        delivered: 0,
                    })
                },
            diag_views(diagnoses@) == diag_list(rvs.take(i as int), devs, reg),
    {
        proof {
            let pre = rvs.take(i as int);
            let one = seq![rvs[i as int]];
            assert(rvs.take(i + 1) =~= pre + one);
            lemma_resolved_pipes_concat(pre, one, devs, reg);
            lemma_diag_list_concat(pre, one, devs, reg);
            assert(one.drop_first() =~= Seq::<RouteView>::empty());
            assert(resolved_pipes(one.drop_first(), devs, reg) =~= Seq::<
                (Addr, Addr, Seq<Filter>),
            >::empty());
            assert(diag_list(one.drop_first(), devs, reg) =~= Seq::<DiagnosisView>::empty());
            assert(one[0] == rvs[i as int]);
            assert(rvs[i as int] == routes@[i as int]@);
        }
        if routes[i].enabled {
            match resolve_route(&routes[i], devices, registry) {
                Ok(p) => {
                    let ghost pipes0 = pipelines@;
                    pipelines.push(p);
                    proof {
                        let t = route_outcome(rvs[i as int], devs, reg)->Ok_0;
                        assert(resolved_pipes(one_of(rvs, i as int), devs, reg) =~= seq![t]);
                        assert(resolved_pipes(rvs.take(i + 1), devs, reg) =~= resolved_pipes(
                            rvs.take(i as int),
                            devs,
                            reg,
                        ) + seq![t]);
                        assert(diag_list(rvs.take(i + 1), devs, reg) =~= diag_list(
                            rvs.take(i as int),
                            devs,
                            reg,
                        ));
                    }
                },
                Err(d) => {
                    let ghost diags0 = diagnoses@;
                    let ghost dv = d@;
                    diagnoses.push(d);
                    proof {
                        let e = route_outcome(rvs[i as int], devs, reg)->Err_0;
                        let want = DiagnosisView {
                            source: rvs[i as int].source,
                            sink: rvs[i as int].sink,
                            subject: e.1,
                            reason: e.0,
                        };
                        assert(dv == want);
                        assert(diag_list(one_of(rvs, i as int), devs, reg) =~= seq![want]);
                        assert(diag_views(diagnoses@) =~= diag_views(diags0).push(dv));
                        assert(diag_views(diagnoses@) =~= diag_list(rvs.take(i + 1), devs, reg));
                    }
                },
            }
        } else {
            proof {
                assert(resolved_pipes(rvs.take(i + 1), devs, reg) =~= resolved_pipes(
                    rvs.take(i as int),
                    devs,
                    reg,
                ));
                assert(diag_list(rvs.take(i + 1), devs, reg) =~= diag_list(
                    rvs.take(i as int),
                    devs,
                    reg,
                ));
            }
        }
    }
    proof {
        assert(rvs.take(n as int) =~= rvs);
    }
    Resolution { pipelines, diagnoses }
}

/// The one-route sequence at position `i`.
spec fn one_of(rvs: Seq<RouteView>, i: int) -> Seq<RouteView> {
    seq![rvs[i]]
}

} // verus!
