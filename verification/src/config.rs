//! The validated configuration store.
//!
//! A configuration document names devices and routes.  [`Config::from_json`]
//! checks the document's structure — a missing or malformed `devices` or
//! `routes` section is a fatal [`ConfigError`] — and keeps only well-formed
//! entries: a device must have a string `name`; a route must have a boolean
//! `enabled`, a string `source` and `sink`, and both must name a known
//! device.  A route that fails the name check is discarded here, before it
//! can ever reach the resolver.
//!
//! A device's `features` list seeds both its input-side and its
//! output-side filter list; a route's `filters` list defaults to empty.

use vstd::prelude::*;
use vstd::string::StringExecFns;

use crate::jsonval::JsonVal;
use crate::jsonval::spec_as_bool;
use crate::jsonval::spec_as_str;
use crate::jsonval::spec_get;
use crate::jsonval::spec_is_array;
use crate::jsonval::spec_members;

verus! {

/// A named endpoint: at most one inbound and one outbound address in
/// textual form, plus the ordered filter identifiers applied to traffic it
/// originates (input side) and to traffic it receives (output side).
pub struct Device {
    pub name: String,
    pub input: Option<String>,
    pub output: Option<String>,
    pub input_filters: Vec<String>,
    pub output_filters: Vec<String>,
}

/// The abstract value of a [`Device`].
pub struct DeviceView {
    pub name: Seq<char>,
    pub input: Option<Seq<char>>,
    pub output: Option<Seq<char>>,
    pub input_filters: Seq<Seq<char>>,
    pub output_filters: Seq<Seq<char>>,
}

impl View for Device {
    type V = DeviceView;

    open spec fn view(&self) -> DeviceView {
        DeviceView {
            name: self.name@,
            input: match self.input {
                Some(s) => Some(s@),
                None => None,
            },
            output: match self.output {
                Some(s) => Some(s@),
                None => None,
            },
            input_filters: self.input_filters@.map_values(|s: String| s@),
            output_filters: self.output_filters@.map_values(|s: String| s@),
        }
    }
}

/// A declared intent to connect one device's input side to another
/// device's output side, with an enable flag and route-local filters.
pub struct Route {
    pub enabled: bool,
    pub source: String,
    pub sink: String,
    pub filters: Vec<String>,
}

/// The abstract value of a [`Route`].
pub struct RouteView {
    pub enabled: bool,
    pub source: Seq<char>,
    pub sink: Seq<char>,
    pub filters: Seq<Seq<char>>,
}

impl View for Route {
    type V = RouteView;

    open spec fn view(&self) -> RouteView {
        RouteView {
            enabled: self.enabled,
            source: self.source@,
            sink: self.sink@,
            filters: self.filters@.map_values(|s: String| s@),
        }
    }
}

/// The validated devices and routes of one configuration file.
pub struct Config {
    pub filename: String,
    pub devices: Vec<Device>,
    pub routes: Vec<Route>,
}

/// The abstract value of a [`Config`].
pub struct ConfigView {
    pub filename: Seq<char>,
    pub devices: Seq<DeviceView>,
    pub routes: Seq<RouteView>,
}

/// The abstract values of a sequence of devices.
pub open spec fn dev_views(ds: Seq<Device>) -> Seq<DeviceView> {
    ds.map_values(|d: Device| d@)
}

/// The abstract values of a sequence of routes.
pub open spec fn route_views(rs: Seq<Route>) -> Seq<RouteView> {
    rs.map_values(|r: Route| r@)
}

impl View for Config {
    type V = ConfigView;

    open spec fn view(&self) -> ConfigView {
        ConfigView {
            filename: self.filename@,
            devices: dev_views(self.devices@),
            routes: route_views(self.routes@),
        }
    }
}

/// A fatal fault in the configuration's structure: the whole document is
/// rejected and no route is ever resolved.
#[derive(Clone, Copy, PartialEq, Eq, Structural, Debug)]
pub enum ConfigError {
    /// The `devices` section is missing or is not an array.
    InvalidDevices,
    /// The `routes` section is missing or is not an array.
    InvalidRoutes,
}

impl ConfigError {
    /// The operator-facing description of this fault.
    pub fn message(&self) -> (r: String)
        ensures
            *self is InvalidDevices ==> r@ == "invalid or missing 'devices' section in config"@,
            *self is InvalidRoutes ==> r@ == "invalid or missing 'routes' section in config"@,
    {
        match self {
            ConfigError::InvalidDevices => String::from_str(
                "invalid or missing 'devices' section in config",
            ),
            ConfigError::InvalidRoutes => String::from_str(
                "invalid or missing 'routes' section in config",
            ),
        }
    }
}

/// The node under `key`, with a missing field reading as null.
pub open spec fn field_or_null(v: JsonVal, key: Seq<char>) -> JsonVal {
    match spec_get(v, key) {
        Some(x) => x,
        None => JsonVal::Null,
    }
}

/// The string under `key`, if the field is there and is a string.
pub open spec fn str_field(v: JsonVal, key: Seq<char>) -> Option<Seq<char>> {
    match spec_get(v, key) {
        Some(x) => spec_as_str(x),
        None => None,
    }
}

/// The boolean under `key`, if the field is there and is a boolean.
pub open spec fn bool_field(v: JsonVal, key: Seq<char>) -> Option<bool> {
    match spec_get(v, key) {
        Some(x) => spec_as_bool(x),
        None => None,
    }
}

/// The string members of a node list, in order, non-strings skipped.
pub open spec fn str_list(items: Seq<JsonVal>) -> Seq<Seq<char>>
    decreases items.len(),
{
    if items.len() == 0 {
        Seq::empty()
    } else {
        match spec_as_str(items[0]) {
            Some(s) => seq![s] + str_list(items.drop_first()),
            None => str_list(items.drop_first()),
        }
    }
}

/// The device a document node declares, if it has a string `name`.
pub open spec fn device_view_of(v: JsonVal) -> Option<DeviceView> {
    match str_field(v, "name"@) {
        Some(name) => Some(
            DeviceView {
                name,
                input: str_field(v, "input"@),
                output: str_field(v, "output"@),
                input_filters: str_list(spec_members(field_or_null(v, "features"@))),
                output_filters: str_list(spec_members(field_or_null(v, "features"@))),
            },
        ),
        None => None,
    }
}

/// The devices a `devices` array declares, in order, malformed entries
/// skipped.
pub open spec fn devices_of(items: Seq<JsonVal>) -> Seq<DeviceView>
    decreases items.len(),
{
    if items.len() == 0 {
        Seq::empty()
    } else {
        match device_view_of(items[0]) {
            Some(d) => seq![d] + devices_of(items.drop_first()),
            None => devices_of(items.drop_first()),
        }
    }
}

/// Some device in `devs` is named `name`.
pub open spec fn has_device(devs: Seq<DeviceView>, name: Seq<char>) -> bool {
    exists|i: int| 0 <= i < devs.len() && devs[i].name == name
}

/// The route a document node declares, if it is well formed and both its
/// endpoint names resolve against `devs`.
pub open spec fn route_view_of(v: JsonVal, devs: Seq<DeviceView>) -> Option<RouteView> {
    match (bool_field(v, "enabled"@), str_field(v, "source"@), str_field(v, "sink"@)) {
        (Some(enabled), Some(source), Some(sink)) => if has_device(devs, source) && has_device(
            devs,
            sink,
        ) {
            Some(
                RouteView {
                    enabled,
                    source,
                    sink,
                    filters: str_list(spec_members(field_or_null(v, "filters"@))),
                },
            )
        } else {
            None
        },
        _ => None,
    }
}

/// The routes a `routes` array declares against `devs`, in order,
/// malformed and unresolvable entries skipped.
pub open spec fn routes_of(items: Seq<JsonVal>, devs: Seq<DeviceView>) -> Seq<RouteView>
    decreases items.len(),
{
    if items.len() == 0 {
        Seq::empty()
    } else {
        match route_view_of(items[0], devs) {
            Some(r) => seq![r] + routes_of(items.drop_first(), devs),
            None => routes_of(items.drop_first(), devs),
        }
    }
}

/// `str_list` distributes over concatenation.
pub proof fn lemma_str_list_concat(a: Seq<JsonVal>, b: Seq<JsonVal>)
    ensures
        str_list(a + b) == str_list(a) + str_list(b),
    decreases a.len(),
{
    if a.len() == 0 {
        assert(a + b =~= b);
        assert(str_list(a) + str_list(b) =~= str_list(b));
    } else {
        assert((a + b)[0] == a[0]);
        assert((a + b).drop_first() =~= a.drop_first() + b);
        lemma_str_list_concat(a.drop_first(), b);
        match spec_as_str(a[0]) {
            Some(s) => {
                assert(seq![s] + (str_list(a.drop_first()) + str_list(b)) =~= (seq![s] + str_list(
                    a.drop_first(),
                )) + str_list(b));
            },
            None => {},
        }
    }
}

/// `devices_of` distributes over concatenation.
pub proof fn lemma_devices_of_concat(a: Seq<JsonVal>, b: Seq<JsonVal>)
    ensures
        devices_of(a + b) == devices_of(a) + devices_of(b),
    decreases a.len(),
{
    if a.len() == 0 {
        assert(a + b =~= b);
        assert(devices_of(a) + devices_of(b) =~= devices_of(b));
    } else {
        assert((a + b)[0] == a[0]);
        assert((a + b).drop_first() =~= a.drop_first() + b);
        lemma_devices_of_concat(a.drop_first(), b);
        match device_view_of(a[0]) {
            Some(d) => {
                assert(seq![d] + (devices_of(a.drop_first()) + devices_of(b)) =~= (seq![d]
                    + devices_of(a.drop_first())) + devices_of(b));
            },
            None => {},
        }
    }
}

/// `routes_of` distributes over concatenation.
pub proof fn lemma_routes_of_concat(a: Seq<JsonVal>, b: Seq<JsonVal>, devs: Seq<DeviceView>)
    ensures
        routes_of(a + b, devs) == routes_of(a, devs) + routes_of(b, devs),
    decreases a.len(),
{
    if a.len() == 0 {
        assert(a + b =~= b);
        assert(routes_of(a, devs) + routes_of(b, devs) =~= routes_of(b, devs));
    } else {
        assert((a + b)[0] == a[0]);
        assert((a + b).drop_first() =~= a.drop_first() + b);
        lemma_routes_of_concat(a.drop_first(), b, devs);
        match route_view_of(a[0], devs) {
            Some(r) => {
                assert(seq![r] + (routes_of(a.drop_first(), devs) + routes_of(b, devs)) =~= (
                seq![r] + routes_of(a.drop_first(), devs)) + routes_of(b, devs));
            },
            None => {},
        }
    }
}

/// No dangling references ever reach the resolver: every route that
/// survives validation names a known device on both ends.
pub proof fn lemma_routes_of_resolve(items: Seq<JsonVal>, devs: Seq<DeviceView>)
    ensures
        forall|i: int|
            0 <= i < routes_of(items, devs).len() ==> has_device(
                devs,
                (#[trigger] routes_of(items, devs)[i]).source,
            ) && has_device(devs, routes_of(items, devs)[i].sink),
    decreases items.len(),
{
    if items.len() > 0 {
        lemma_routes_of_resolve(items.drop_first(), devs);
        match route_view_of(items[0], devs) {
            Some(r) => {
                assert(forall|i: int|
                    1 <= i < routes_of(items, devs).len() ==> routes_of(items, devs)[i]
                        == routes_of(items.drop_first(), devs)[i - 1]);
            },
            None => {},
        }
    }
}

impl Config {
    /// Every route's endpoints resolve to a device of this configuration.
    pub open spec fn wf(self) -> bool {
        forall|i: int|
            0 <= i < self.routes@.len() ==> has_device(
                dev_views(self.devices@),
                (#[trigger] self.routes@[i])@.source,
            ) && has_device(dev_views(self.devices@), self.routes@[i]@.sink)
    }

    /// Validate a configuration document.
    ///
    /// The `devices` and `routes` sections must both be arrays, or the
    /// document is rejected whole; within them, malformed entries and
    /// routes whose endpoints do not resolve are discarded, in place.
    pub fn from_json(filename: String, root: &JsonVal) -> (r: Result<Config, ConfigError>)
        ensures
            !spec_is_array(field_or_null(*root, "devices"@)) ==> r == Err::<
                Config,
                ConfigError,
            >(ConfigError::InvalidDevices),
            spec_is_array(field_or_null(*root, "devices"@)) && !spec_is_array(
                field_or_null(*root, "routes"@),
            ) ==> r == Err::<Config, ConfigError>(ConfigError::InvalidRoutes),
            spec_is_array(field_or_null(*root, "devices"@)) && spec_is_array(
                field_or_null(*root, "routes"@),
            ) ==> (r matches Ok(c) && c@.filename == filename@ && c@.devices == devices_of(
                spec_members(field_or_null(*root, "devices"@)),
            ) && c@.routes == routes_of(
                spec_members(field_or_null(*root, "routes"@)),
                devices_of(spec_members(field_or_null(*root, "devices"@))),
            ) && c.wf()),
    {
        let devices_key = String::from_str("devices");
        let devices_node = match root.get(&devices_key) {
            Some(node) => node,
            None => {
                return Err(ConfigError::InvalidDevices);
            },
        };
        let device_items = match devices_node.as_array() {
            Some(items) => items,
            None => {
                return Err(ConfigError::InvalidDevices);
            },
        };
        let mut devices: Vec<Device> = Vec::new();
        let nd = device_items.len();
        proof {
            assert(device_items@.take(0) =~= Seq::<JsonVal>::empty());
            assert(dev_views(devices@) =~= devices_of(device_items@.take(0)));
        }
        for i in 0..nd
            invariant
                nd == device_items@.len(),
                spec_members(field_or_null(*root, "devices"@)) == device_items@,
                dev_views(devices@) == devices_of(device_items@.take(i as int)),
        {
            let d = device_of(&device_items[i]);
            proof {
                let pre = device_items@.take(i as int);
                let one = seq![device_items@[i as int]];
                assert(device_items@.take(i + 1) =~= pre + one);
                lemma_devices_of_concat(pre, one);
                assert(one.drop_first() =~= Seq::<JsonVal>::empty());
                assert(devices_of(one.drop_first()) =~= Seq::<DeviceView>::empty());
                assert(one[0] == device_items@[i as int]);
                match device_view_of(one[0]) {
                    Some(dv) => {
                        assert(devices_of(one) =~= seq![dv]);
                    },
                    None => {
                        assert(devices_of(one) =~= Seq::<DeviceView>::empty());
                    },
                }
            }
            match d {
                Some(dev) => {
                    let ghost pushed = devices@.push(dev);
                    devices.push(dev);
                    proof {
                        assert(dev_views(pushed) =~= dev_views(pushed.drop_last()).push(
                            pushed.last()@,
                        ));
                        assert(pushed.drop_last() =~= pushed.subrange(0, pushed.len() - 1));
                        assert(dev_views(devices@) =~= devices_of(device_items@.take(i + 1)));
                    }
                },
                None => {
                    proof {
                        assert(dev_views(devices@) =~= devices_of(device_items@.take(i + 1)));
                    }
                },
            }
        }
        proof {
            assert(device_items@.take(nd as int) =~= device_items@);
        }
        let routes_key = String::from_str("routes");
        let routes_node = match root.get(&routes_key) {
            Some(node) => node,
            None => {
                return Err(ConfigError::InvalidRoutes);
            },
        };
        let route_items = match routes_node.as_array() {
            Some(items) => items,
            None => {
                return Err(ConfigError::InvalidRoutes);
            },
        };
        let mut routes: Vec<Route> = Vec::new();
        let nr = route_items.len();
        let ghost devs = dev_views(devices@);
        proof {
            assert(route_items@.take(0) =~= Seq::<JsonVal>::empty());
            assert(route_views(routes@) =~= routes_of(route_items@.take(0), devs));
        }
        for i in 0..nr
            invariant
                nr == route_items@.len(),
                spec_members(field_or_null(*root, "routes"@)) == route_items@,
                devs == dev_views(devices@),
                route_views(routes@) == routes_of(route_items@.take(i as int), devs),
        {
            let rt = route_of(&route_items[i], &devices);
            proof {
                let pre = route_items@.take(i as int);
                let one = seq![route_items@[i as int]];
                assert(route_items@.take(i + 1) =~= pre + one);
                lemma_routes_of_concat(pre, one, devs);
                assert(one.drop_first() =~= Seq::<JsonVal>::empty());
                assert(routes_of(one.drop_first(), devs) =~= Seq::<RouteView>::empty());
                assert(one[0] == route_items@[i as int]);
                match route_view_of(one[0], devs) {
                    Some(rv) => {
                        assert(routes_of(one, devs) =~= seq![rv]);
                    },
                    None => {
                        assert(routes_of(one, devs) =~= Seq::<RouteView>::empty());
                    },
                }
            }
            match rt {
                Some(route) => {
                    let ghost pushed = routes@.push(route);
                    routes.push(route);
                    proof {
                        assert(route_views(pushed) =~= route_views(pushed.drop_last()).push(
                            pushed.last()@,
                        ));
                        assert(pushed.drop_last() =~= pushed.subrange(0, pushed.len() - 1));
                        assert(route_views(routes@) =~= routes_of(route_items@.take(i + 1), devs));
                    }
                },
                None => {
                    proof {
                        assert(route_views(routes@) =~= routes_of(route_items@.take(i + 1), devs));
                    }
                },
            }
        }
        proof {
            assert(route_items@.take(nr as int) =~= route_items@);
        }
        let c = Config { filename, devices, routes };
        proof {
            lemma_routes_of_resolve(route_items@, devs);
            assert(forall|i: int|
                0 <= i < c.routes@.len() ==> (#[trigger] c.routes@[i])@ == route_views(c.routes@)[i]);
        }
        Ok(c)
    }

    /// The first device of this configuration named `name`, if any.
    pub fn get_device<'a>(&'a self, name: &String) -> (r: Option<&'a Device>)
        ensures
            match r {
                Some(d) => find_device(dev_views(self.devices@), name@) == Some(d@),
                None => find_device(dev_views(self.devices@), name@) == None::<DeviceView>,
            },
    {
        find_device_in(&self.devices, name)
    }
}

/// The first device in `devs` named `name`.
pub open spec fn find_device(devs: Seq<DeviceView>, name: Seq<char>) -> Option<DeviceView>
    decreases devs.len(),
{
    if devs.len() == 0 {
        None
    } else if devs[0].name == name {
        Some(devs[0])
    } else {
        find_device(devs.drop_first(), name)
    }
}

/// A found device is evidence that the name resolves, and the only way a
/// name fails to resolve is that no device carries it.
pub proof fn lemma_find_device_has(devs: Seq<DeviceView>, name: Seq<char>)
    ensures
        find_device(devs, name) is Some <==> has_device(devs, name),
        find_device(devs, name) matches Some(d) ==> d.name == name,
    decreases devs.len(),
{
    if devs.len() > 0 {
        lemma_find_device_has(devs.drop_first(), name);
        if devs[0].name == name {
        } else {
            assert(forall|i: int|
                1 <= i < devs.len() ==> devs.drop_first()[i - 1] == #[trigger] devs[i]);
            if has_device(devs, name) {
                let i = choose|i: int| 0 <= i < devs.len() && devs[i].name == name;
                assert(devs.drop_first()[i - 1] == devs[i]);
            }
        }
    }
}

/// Linear search for a device by name.
pub fn find_device_in<'a>(devices: &'a Vec<Device>, name: &String) -> (r: Option<&'a Device>)
    ensures
        match r {
            Some(d) => find_device(dev_views(devices@), name@) == Some(d@),
            None => find_device(dev_views(devices@), name@) == None::<DeviceView>,
        },
{
    let n = devices.len();
    proof {
        assert(dev_views(devices@).skip(0) =~= dev_views(devices@));
    }
    for i in 0..n
        invariant
            n == devices@.len(),
            dev_views(devices@).len() == n,
            find_device(dev_views(devices@), name@) == find_device(
                dev_views(devices@).skip(i as int),
                name@,
            ),
    {
        proof {
            assert(dev_views(devices@).skip(i as int)[0] == dev_views(devices@)[i as int]);
        }
        if devices[i].name == *name {
            return Some(&devices[i]);
        }
        proof {
            assert(dev_views(devices@).skip(i as int).drop_first() =~= dev_views(devices@).skip(
                i + 1,
            ));
        }
    }
    None
}

/// Whether some device in `devices` is named `name`.
fn device_exists(devices: &Vec<Device>, name: &String) -> (r: bool)
    ensures
        r == has_device(dev_views(devices@), name@),
{
    proof {
        lemma_find_device_has(dev_views(devices@), name@);
    }
    match find_device_in(devices, name) {
        Some(_) => true,
        None => false,
    }
}

/// The string members of the array under `key`, skipping non-strings;
/// empty when the field is missing or is not an array.
fn string_list(v: &JsonVal, key: &String) -> (out: Vec<String>)
    ensures
        out@.map_values(|s: String| s@) == str_list(spec_members(field_or_null(*v, key@))),
{
    let mut out: Vec<String> = Vec::new();
    let node = match v.get(key) {
        Some(node) => node,
        None => {
            proof {
                assert(out@.map_values(|s: String| s@) =~= str_list(
                    spec_members(field_or_null(*v, key@)),
                ));
            }
            return out;
        },
    };
    let items = match node.as_array() {
        Some(items) => items,
        None => {
            proof {
                assert(out@.map_values(|s: String| s@) =~= str_list(
                    spec_members(field_or_null(*v, key@)),
                ));
            }
            return out;
        },
    };
    let n = items.len();
    proof {
        assert(items@.take(0) =~= Seq::<JsonVal>::empty());
        assert(out@.map_values(|s: String| s@) =~= str_list(items@.take(0)));
    }
    for i in 0..n
        invariant
            n == items@.len(),
            spec_members(field_or_null(*v, key@)) == items@,
            out@.map_values(|s: String| s@) == str_list(items@.take(i as int)),
    {
        proof {
            let pre = items@.take(i as int);
            let one = seq![items@[i as int]];
            assert(items@.take(i + 1) =~= pre + one);
            lemma_str_list_concat(pre, one);
            assert(one.drop_first() =~= Seq::<JsonVal>::empty());
            assert(str_list(one.drop_first()) =~= Seq::<Seq<char>>::empty());
            assert(one[0] == items@[i as int]);
            match spec_as_str(one[0]) {
                Some(s) => {
                    assert(str_list(one) =~= seq![s]);
                },
                None => {
                    assert(str_list(one) =~= Seq::<Seq<char>>::empty());
                },
            }
        }
        match items[i].as_str() {
            Some(s) => {
                let cloned = s.clone();
                let ghost pushed = out@.push(cloned);
                out.push(cloned);
                proof {
                    assert(pushed.drop_last() =~= pushed.subrange(0, pushed.len() - 1));
                    assert(pushed.map_values(|s: String| s@) =~= pushed.drop_last().map_values(
                        |s: String| s@,
                    ).push(pushed.last()@));
                    assert(out@.map_values(|s: String| s@) =~= str_list(items@.take(i + 1)));
                }
            },
            None => {
                proof {
                    assert(out@.map_values(|s: String| s@) =~= str_list(items@.take(i + 1)));
                }
            },
        }
    }
    proof {
        assert(items@.take(n as int) =~= items@);
    }
    out
}

/// The string under `key`, cloned out of the document.
fn string_field(v: &JsonVal, key: &String) -> (r: Option<String>)
    ensures
        match r {
            Some(s) => str_field(*v, key@) == Some(s@),
            None => str_field(*v, key@) == None::<Seq<char>>,
        },
{
    match v.get(key) {
        Some(node) => match node.as_str() {
            Some(s) => Some(s.clone()),
            None => None,
        },
        None => None,
    }
}

/// Read one entry of the `devices` section.
fn device_of(v: &JsonVal) -> (r: Option<Device>)
    ensures
        match r {
            Some(d) => device_view_of(*v) == Some(d@),
            None => device_view_of(*v) == None::<DeviceView>,
        },
{
    let name_key = String::from_str("name");
    let name = match string_field(v, &name_key) {
        Some(name) => name,
        None => {
            return None;
        },
    };
    let input_key = String::from_str("input");
    let output_key = String::from_str("output");
    let features_key = String::from_str("features");
    let input = string_field(v, &input_key);
    let output = string_field(v, &output_key);
    let input_filters = string_list(v, &features_key);
    let output_filters = string_list(v, &features_key);
    Some(Device { name, input, output, input_filters, output_filters })
}

/// Read one entry of the `routes` section, resolving its endpoint names
/// against the devices read so far.
fn route_of(v: &JsonVal, devices: &Vec<Device>) -> (r: Option<Route>)
    ensures
        match r {
            Some(rt) => route_view_of(*v, dev_views(devices@)) == Some(rt@),
            None => route_view_of(*v, dev_views(devices@)) == None::<RouteView>,
        },
{
    let enabled_key = String::from_str("enabled");
    let enabled_node = match v.get(&enabled_key) {
        Some(node) => node,
        None => {
            return None;
        },
    };
    let enabled = match enabled_node.as_bool() {
        Some(b) => b,
        None => {
            return None;
        },
    };
    let source_key = String::from_str("source");
    let source = match string_field(v, &source_key) {
        Some(s) => s,
        None => {
            return None;
        },
    };
    let sink_key = String::from_str("sink");
    let sink = match string_field(v, &sink_key) {
        Some(s) => s,
        None => {
            return None;
        },
    };
    if !device_exists(devices, &source) {
        return None;
    }
    if !device_exists(devices, &sink) {
        return None;
    }
    let filters_key = String::from_str("filters");
    let filters = string_list(v, &filters_key);
    Some(Route { enabled, source, sink, filters })
}

} // verus!
