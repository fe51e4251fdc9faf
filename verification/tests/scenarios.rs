//! End-to-end resolver scenarios, from a configuration document to
//! pipelines and diagnoses.

use eventroute::config::Config;
use eventroute::config::ConfigError;
use eventroute::config::Device;
use eventroute::config::Route;
use eventroute::filter::Filter;
use eventroute::filter::FilterRegistry;
use eventroute::jsonval::JsonVal;
use eventroute::resolve::Reason;
use eventroute::resolve::resolve;

fn s(text: &str) -> String {
    String::from(text)
}

fn device(name: &str, input: Option<&str>, output: Option<&str>, filters: &[&str]) -> Device {
    Device {
        name: s(name),
        input: input.map(s),
        output: output.map(s),
        input_filters: filters.iter().map(|f| s(f)).collect(),
        output_filters: filters.iter().map(|f| s(f)).collect(),
    }
}

fn route(enabled: bool, source: &str, sink: &str, filters: &[&str]) -> Route {
    Route {
        enabled,
        source: s(source),
        sink: s(sink),
        filters: filters.iter().map(|f| s(f)).collect(),
    }
}

#[test]
fn enabled_route_resolves_to_one_pipeline() {
    let devices = vec![
        device("keyboard", Some("24:0"), None, &[]),
        device("synth", None, Some("20:0"), &[]),
    ];
    let routes = vec![route(true, "keyboard", "synth", &[])];
    let registry = FilterRegistry::standard();
    let r = resolve(&routes, &devices, &registry);
    assert_eq!(r.pipelines.len(), 1);
    assert_eq!(r.diagnoses.len(), 0);
    let p = &r.pipelines[0];
    assert_eq!(p.source.client, 24);
    assert_eq!(p.source.port, 0);
    assert_eq!(p.sink.client, 20);
    assert_eq!(p.sink.port, 0);
    assert!(p.chain.filters.is_empty());
    let st = p.stats();
    assert_eq!(st.ingested, 0);
    assert_eq!(st.delivered, 0);
}

#[test]
fn disabled_route_yields_no_pipeline_and_no_diagnosis() {
    let devices = vec![
        device("keyboard", Some("24:0"), None, &[]),
        device("synth", None, Some("20:0"), &[]),
    ];
    let routes = vec![route(false, "keyboard", "synth", &[])];
    let registry = FilterRegistry::standard();
    let r = resolve(&routes, &devices, &registry);
    assert_eq!(r.pipelines.len(), 0);
    assert_eq!(r.diagnoses.len(), 0);
}

#[test]
fn sink_without_output_address_is_diagnosed() {
    let devices = vec![
        device("keyboard", Some("24:0"), None, &[]),
        device("synth", None, None, &[]),
    ];
    let routes = vec![route(true, "keyboard", "synth", &[])];
    let registry = FilterRegistry::standard();
    let r = resolve(&routes, &devices, &registry);
    assert_eq!(r.pipelines.len(), 0);
    assert_eq!(r.diagnoses.len(), 1);
    let d = &r.diagnoses[0];
    assert_eq!(d.reason, Reason::NoOutputAddress);
    assert_eq!(d.subject, "synth");
    assert_eq!(d.sink, "synth");
    assert_eq!(d.source, "keyboard");
}

#[test]
fn source_without_input_address_leaves_other_routes_alone() {
    let devices = vec![
        device("keyboard", None, None, &[]),
        device("pedal", Some("28:0"), None, &[]),
        device("synth", None, Some("20:0"), &[]),
    ];
    let routes = vec![
        route(true, "keyboard", "synth", &[]),
        route(true, "pedal", "synth", &[]),
    ];
    let registry = FilterRegistry::standard();
    let r = resolve(&routes, &devices, &registry);
    assert_eq!(r.pipelines.len(), 1);
    assert_eq!(r.pipelines[0].source.client, 28);
    assert_eq!(r.diagnoses.len(), 1);
    assert_eq!(r.diagnoses[0].reason, Reason::NoInputAddress);
    assert_eq!(r.diagnoses[0].subject, "keyboard");
}

#[test]
fn chain_is_input_then_route_then_output_filters() {
    let keyboard = Device {
        name: s("keyboard"),
        input: Some(s("24:0")),
        output: None,
        input_filters: vec![s("chan1")],
        output_filters: vec![],
    };
    let synth = Device {
        name: s("synth"),
        input: None,
        output: Some(s("20:0")),
        input_filters: vec![],
        output_filters: vec![],
    };
    let routes = vec![route(true, "keyboard", "synth", &["velocity-clip"])];
    let registry = FilterRegistry::standard();
    let r = resolve(&routes, &vec![keyboard, synth], &registry);
    assert_eq!(r.pipelines.len(), 1);
    assert_eq!(
        r.pipelines[0].chain.filters,
        vec![Filter::ChannelOnly(1), Filter::VelocityClip(100)]
    );
}

#[test]
fn unknown_filter_id_fails_the_route_not_the_rest() {
    let devices = vec![
        device("keyboard", Some("24:0"), None, &[]),
        device("pedal", Some("28:0"), None, &[]),
        device("synth", None, Some("20:0"), &[]),
    ];
    let routes = vec![
        route(true, "keyboard", "synth", &["no-such-filter"]),
        route(true, "pedal", "synth", &[]),
    ];
    let registry = FilterRegistry::standard();
    let r = resolve(&routes, &devices, &registry);
    assert_eq!(r.pipelines.len(), 1);
    assert_eq!(r.pipelines[0].source.client, 28);
    assert_eq!(r.diagnoses.len(), 1);
    assert_eq!(r.diagnoses[0].reason, Reason::UnknownFilter);
    assert_eq!(r.diagnoses[0].subject, "no-such-filter");
}

#[test]
fn unparsable_addresses_are_diagnosed_per_side() {
    let devices = vec![
        device("keyboard", Some("not-an-address"), None, &[]),
        device("pedal", Some("28:0"), None, &[]),
        device("synth", None, Some("20:0:0"), &[]),
    ];
    let routes = vec![
        route(true, "keyboard", "synth", &[]),
        route(true, "pedal", "synth", &[]),
    ];
    let registry = FilterRegistry::standard();
    let r = resolve(&routes, &devices, &registry);
    assert_eq!(r.pipelines.len(), 0);
    assert_eq!(r.diagnoses.len(), 2);
    assert_eq!(r.diagnoses[0].reason, Reason::BadSourceAddress);
    assert_eq!(r.diagnoses[0].subject, "not-an-address");
    assert_eq!(r.diagnoses[1].reason, Reason::BadSinkAddress);
    assert_eq!(r.diagnoses[1].subject, "20:0:0");
}

#[test]
fn routes_naming_unknown_devices_are_diagnosed_defensively() {
    let devices = vec![device("synth", None, Some("20:0"), &[])];
    let routes = vec![
        route(true, "ghost", "synth", &[]),
        route(true, "synth", "phantom", &[]),
    ];
    let registry = FilterRegistry::standard();
    let r = resolve(&routes, &devices, &registry);
    assert_eq!(r.pipelines.len(), 0);
    assert_eq!(r.diagnoses.len(), 2);
    assert_eq!(r.diagnoses[0].reason, Reason::SourceMissing);
    assert_eq!(r.diagnoses[0].subject, "ghost");
    assert_eq!(r.diagnoses[1].reason, Reason::SinkMissing);
    assert_eq!(r.diagnoses[1].subject, "phantom");
}

fn obj(fields: Vec<(&str, JsonVal)>) -> JsonVal {
    JsonVal::Obj(fields.into_iter().map(|(k, v)| (s(k), v)).collect())
}

fn device_node(name: &str, input: Option<&str>, output: Option<&str>) -> JsonVal {
    let mut fields = vec![("name", JsonVal::Str(s(name)))];
    if let Some(i) = input {
        fields.push(("input", JsonVal::Str(s(i))));
    }
    if let Some(o) = output {
        fields.push(("output", JsonVal::Str(s(o))));
    }
    obj(fields)
}

fn route_node(enabled: bool, source: &str, sink: &str) -> JsonVal {
    obj(vec![
        ("enabled", JsonVal::Bool(enabled)),
        ("source", JsonVal::Str(s(source))),
        ("sink", JsonVal::Str(s(sink))),
    ])
}

#[test]
fn missing_routes_section_is_a_config_error() {
    let doc = obj(vec![(
        "devices",
        JsonVal::Arr(vec![device_node("keyboard", Some("24:0"), None)]),
    )]);
    let r = Config::from_json(s("test.json"), &doc);
    assert_eq!(r.err(), Some(ConfigError::InvalidRoutes));
}

#[test]
fn missing_devices_section_is_a_config_error() {
    let doc = obj(vec![("routes", JsonVal::Arr(vec![]))]);
    let r = Config::from_json(s("test.json"), &doc);
    assert_eq!(r.err(), Some(ConfigError::InvalidDevices));
}

#[test]
fn config_error_messages_name_the_section() {
    assert_eq!(
        ConfigError::InvalidDevices.message(),
        "invalid or missing 'devices' section in config"
    );
    assert_eq!(
        ConfigError::InvalidRoutes.message(),
        "invalid or missing 'routes' section in config"
    );
}

#[test]
fn whole_path_from_document_to_pipeline() {
    let doc = obj(vec![
        (
            "devices",
            JsonVal::Arr(vec![
                device_node("keyboard", Some("24:0"), None),
                device_node("synth", None, Some("20:0")),
            ]),
        ),
        (
            "routes",
            JsonVal::Arr(vec![route_node(true, "keyboard", "synth")]),
        ),
    ]);
    let cfg = Config::from_json(s("test.json"), &doc).unwrap();
    assert_eq!(cfg.filename, "test.json");
    assert_eq!(cfg.devices.len(), 2);
    assert_eq!(cfg.routes.len(), 1);
    let registry = FilterRegistry::standard();
    let r = resolve(&cfg.routes, &cfg.devices, &registry);
    assert_eq!(r.pipelines.len(), 1);
    assert_eq!(r.diagnoses.len(), 0);
    assert_eq!(r.pipelines[0].source.client, 24);
    assert_eq!(r.pipelines[0].sink.client, 20);
}

#[test]
fn config_drops_malformed_entries_and_dangling_routes() {
    let doc = obj(vec![
        (
            "devices",
            JsonVal::Arr(vec![
                device_node("keyboard", Some("24:0"), None),
                obj(vec![("input", JsonVal::Str(s("9:9")))]),
                JsonVal::Num,
                device_node("synth", None, Some("20:0")),
            ]),
        ),
        (
            "routes",
            JsonVal::Arr(vec![
                route_node(true, "keyboard", "synth"),
                route_node(true, "keyboard", "nowhere"),
                obj(vec![
                    ("source", JsonVal::Str(s("keyboard"))),
                    ("sink", JsonVal::Str(s("synth"))),
                ]),
            ]),
        ),
    ]);
    let cfg = Config::from_json(s("test.json"), &doc).unwrap();
    assert_eq!(cfg.devices.len(), 2);
    assert_eq!(cfg.devices[0].name, "keyboard");
    assert_eq!(cfg.devices[1].name, "synth");
    assert_eq!(cfg.routes.len(), 1);
    assert_eq!(cfg.routes[0].source, "keyboard");
    assert_eq!(cfg.routes[0].sink, "synth");
}

#[test]
fn device_features_seed_both_filter_lists() {
    let doc = obj(vec![
        (
            "devices",
            JsonVal::Arr(vec![obj(vec![
                ("name", JsonVal::Str(s("keyboard"))),
                ("input", JsonVal::Str(s("24:0"))),
                (
                    "features",
                    JsonVal::Arr(vec![JsonVal::Str(s("chan1")), JsonVal::Num]),
                ),
            ])]),
        ),
        ("routes", JsonVal::Arr(vec![])),
    ]);
    let cfg = Config::from_json(s("test.json"), &doc).unwrap();
    assert_eq!(cfg.devices[0].input_filters, vec![s("chan1")]);
    assert_eq!(cfg.devices[0].output_filters, vec![s("chan1")]);
}

#[test]
fn get_device_finds_by_name() {
    let doc = obj(vec![
        (
            "devices",
            JsonVal::Arr(vec![
                device_node("keyboard", Some("24:0"), None),
                device_node("synth", None, Some("20:0")),
            ]),
        ),
        ("routes", JsonVal::Arr(vec![])),
    ]);
    let cfg = Config::from_json(s("test.json"), &doc).unwrap();
    assert_eq!(cfg.get_device(&s("synth")).unwrap().output, Some(s("20:0")));
    assert!(cfg.get_device(&s("nowhere")).is_none());
}
