//! The decoded records as values of the `rsjson` crate, to be gathered in
//! a JSON document.
//!
//! What an object of `rsjson` holds is stated as a `JsonValue`. The
//! functions that make the calls into `rsjson` are believed, not proved:
//! each says above it which function it calls and what it claims of it.
use vstd::prelude::*;
use crate::bus::{BusInput, BusInputView, input_views};
use crate::cpu::ClockSource;
use crate::gpu::GpuMetrics;
use crate::motherboard::{Bios, Motherboard};
use crate::network::{
    InterfaceType, NetworkInterface, NetworkRoute, RouteType, RouteView, route_views,
};
use crate::sensors::{Backlight, Battery, BatteryStatus};
use crate::storage::{StorageDevice, StoragePartition};
use crate::subnet::{IPv4, IPv4View, ipv4_views};
use crate::text::{lacks, replace, string_views};

verus! {

/// A JSON value that holds no fraction: what the contents of `rsjson` can
/// hold, but for a floating-point number.
pub enum JsonValue {
    Null,
    Flag(bool),
    Number(usize),
    Text(Seq<char>),
    List(Seq<JsonValue>),
    Object(Seq<(Seq<char>, JsonValue)>),
}

/// `rsjson::Json`: a JSON object, a list of nodes.
#[verifier::external_type_specification]
#[verifier::external_body]
pub struct ExJson(rsjson::Json);

/// `rsjson::Node`: a label with a content.
#[verifier::external_type_specification]
#[verifier::external_body]
pub struct ExNode(rsjson::Node);

/// `rsjson::NodeContent`: the value of a node.
#[verifier::external_type_specification]
#[verifier::external_body]
pub struct ExNodeContent(rsjson::NodeContent);

/// The members that an object holds: the label and the value of each of
/// its nodes, in their order.
pub uninterp spec fn json_members(json: rsjson::Json) -> Seq<(Seq<char>, JsonValue)>;

/// The label and the value of a node.
pub uninterp spec fn node_member(node: rsjson::Node) -> (Seq<char>, JsonValue);

/// The value that a content holds.
pub uninterp spec fn content_value(content: rsjson::NodeContent) -> JsonValue;

/// The values of a list of contents.
pub open spec fn content_values(contents: Seq<rsjson::NodeContent>) -> Seq<JsonValue> {
    Seq::new(contents.len(), |i: int| content_value(contents[i]))
}

/// A label as a node keeps it: with a backslash before each of its double
/// quotes.
pub open spec fn kept_label(label: Seq<char>) -> Seq<char> {
    replace(label, "\""@, "\\\""@)
}

/// `rsjson::Json::new`: an object without nodes.
#[verifier::external_body]
fn emptyJson() -> (json: rsjson::Json)
    ensures
        json_members(json) == Seq::<(Seq<char>, JsonValue)>::empty(),
{
    rsjson::Json::new()
}

/// `rsjson::Node::new`: a node that holds `content` under `label`, which
/// it keeps with a backslash before each double quote.
#[verifier::external_body]
fn newNode(label: &str, content: rsjson::NodeContent) -> (node: rsjson::Node)
    ensures
        node_member(node) == (kept_label(label@), content_value(content)),
{
    rsjson::Node::new(label, content)
}

/// `rsjson::Json::addNode`: the node becomes the last one of the object,
/// whatever nodes the object holds.
#[verifier::external_body]
fn addNode(json: &mut rsjson::Json, node: rsjson::Node)
    ensures
        json_members(*final(json)) == json_members(*old(json)).push(node_member(node)),
{
    json.addNode(node)
}

/// `rsjson::NodeContent::Int`: a content that holds a number.
#[verifier::external_body]
fn numberContent(n: usize) -> (content: rsjson::NodeContent)
    ensures
        content_value(content) == JsonValue::Number(n),
{
    rsjson::NodeContent::Int(n)
}

/// `rsjson::NodeContent::String`: a content that holds a text.
#[verifier::external_body]
fn textContent(text: String) -> (content: rsjson::NodeContent)
    ensures
        content_value(content) == JsonValue::Text(text@),
{
    rsjson::NodeContent::String(text)
}

/// `rsjson::NodeContent::List`: a content that holds a list of contents.
#[verifier::external_body]
fn listContent(items: Vec<rsjson::NodeContent>) -> (content: rsjson::NodeContent)
    ensures
        content_value(content) == JsonValue::List(content_values(items@)),
{
    rsjson::NodeContent::List(items)
}

/// `rsjson::NodeContent::Json`: a content that holds an object.
#[verifier::external_body]
fn objectContent(json: rsjson::Json) -> (content: rsjson::NodeContent)
    ensures
        content_value(content) == JsonValue::Object(json_members(json)),
{
    rsjson::NodeContent::Json(json)
}

/// `rsjson::NodeContent::Bool`: a content that holds a truth value.
#[verifier::external_body]
fn flagContent(flag: bool) -> (content: rsjson::NodeContent)
    ensures
        content_value(content) == JsonValue::Flag(flag),
{
    rsjson::NodeContent::Bool(flag)
}

/// `rsjson::NodeContent::Null`: a content that holds nothing.
#[verifier::external_body]
fn nullContent() -> (content: rsjson::NodeContent)
    ensures
        content_value(content) == JsonValue::Null,
{
    rsjson::NodeContent::Null
}

/// A label without a double quote is kept as it is.
pub proof fn lemma_plain_label(label: Seq<char>)
    requires
        lacks(label, '"'),
    ensures
        kept_label(label) == label,
{
    reveal_strlit("\"");
    assert("\""@ =~= seq!['"']);
    crate::text::lemma_split_without(label, '"');
}

/// Adds to `json` a node that holds `content` under `label`.
fn put(json: &mut rsjson::Json, label: &str, content: rsjson::NodeContent)
    ensures
        json_members(*final(json)) == json_members(*old(json)).push(
            (kept_label(label@), content_value(content)),
        ),
{
    let node = newNode(label, content);
    addNode(json, node);
}

/// Adds to `json` a node that holds `content` under a label without
/// double quotes.
fn putPlain(json: &mut rsjson::Json, label: &str, content: rsjson::NodeContent)
    requires
        lacks(label@, '"'),
    ensures
        json_members(*final(json)) == json_members(*old(json)).push(
            (label@, content_value(content)),
        ),
{
    proof {
        lemma_plain_label(label@);
    }
    put(json, label, content);
}

/// The name of a kind of socket table.
pub open spec fn route_type_name(routeType: RouteType) -> Seq<char> {
    match routeType {
        RouteType::TCP => "TCP"@,
        RouteType::TCP6 => "TCP6"@,
        RouteType::UDP => "UDP"@,
        RouteType::UDP6 => "UDP6"@,
    }
}

/// A route as a JSON object.
pub open spec fn route_members(route: RouteView) -> Seq<(Seq<char>, JsonValue)> {
    seq![
        ("type"@, JsonValue::Text(route_type_name(route.routeType))),
        ("local-address"@, JsonValue::Text(route.localAddress)),
        ("local-port"@, JsonValue::Number(route.localPort as usize)),
        ("remote-address"@, JsonValue::Text(route.remoteAddress)),
        ("remote-port"@, JsonValue::Number(route.remotePort as usize)),
        ("route-status"@, JsonValue::Text(route.routeStatus.name())),
    ]
}

/// Routes as a JSON list of objects.
pub open spec fn routes_value(routes: Seq<RouteView>) -> JsonValue {
    JsonValue::List(Seq::new(routes.len(), |i: int| JsonValue::Object(route_members(routes[i]))))
}

/// The JSON object that describes a route.
pub fn routeJson(route: &NetworkRoute) -> (json: rsjson::Json)
    ensures
        json_members(json) == route_members(route@),
{
    let mut json = emptyJson();
    let kind = match route.routeType {
        RouteType::TCP => "TCP".to_owned(),
        RouteType::TCP6 => "TCP6".to_owned(),
        RouteType::UDP => "UDP".to_owned(),
        RouteType::UDP6 => "UDP6".to_owned(),
    };
    proof {
        reveal_strlit("type");
        reveal_strlit("local-address");
        reveal_strlit("local-port");
        reveal_strlit("remote-address");
        reveal_strlit("remote-port");
        reveal_strlit("route-status");
    }
    putPlain(&mut json, "type", textContent(kind));
    putPlain(&mut json, "local-address", textContent(route.localAddress.clone()));
    putPlain(&mut json, "local-port", numberContent(route.localPort as usize));
    putPlain(&mut json, "remote-address", textContent(route.remoteAddress.clone()));
    putPlain(&mut json, "remote-port", numberContent(route.remotePort as usize));
    putPlain(&mut json, "route-status", textContent(route.routeStatus.toString()));
    proof {
        assert(json_members(json) =~= route_members(route@));
    }
    json
}

/// The JSON list that describes `routes`, one object for each.
pub fn routesList(routes: &Vec<NetworkRoute>) -> (list: rsjson::NodeContent)
    ensures
        content_value(list) == routes_value(route_views(routes@)),
{
    let mut items: Vec<rsjson::NodeContent> = Vec::new();
    let mut i: usize = 0;
    while i < routes.len()
        invariant
            i <= routes.len(),
            items@.len() == i,
            forall|k: int|
                0 <= k < i ==> content_value(#[trigger] items@[k]) == JsonValue::Object(
                    route_members(routes@[k]@),
                ),
        decreases routes.len() - i,
    {
        let json = routeJson(&routes[i]);
        items.push(objectContent(json));
        i += 1;
    }
    let list = listContent(items);
    proof {
        let wanted = routes_value(route_views(routes@));
        assert(content_values(items@) =~= wanted->List_0);
    }
    list
}

/// Texts as a JSON list.
pub open spec fn texts_value(texts: Seq<Seq<char>>) -> JsonValue {
    JsonValue::List(Seq::new(texts.len(), |i: int| JsonValue::Text(texts[i])))
}

/// The JSON list that holds `texts`.
pub fn textList(texts: &Vec<String>) -> (list: rsjson::NodeContent)
    ensures
        content_value(list) == texts_value(string_views(texts@)),
{
    let mut items: Vec<rsjson::NodeContent> = Vec::new();
    let mut i: usize = 0;
    while i < texts.len()
        invariant
            i <= texts.len(),
            items@.len() == i,
            forall|k: int|
                0 <= k < i ==> content_value(#[trigger] items@[k]) == JsonValue::Text(
                    texts@[k]@,
                ),
        decreases texts.len() - i,
    {
        items.push(textContent(texts[i].clone()));
        i += 1;
    }
    let list = listContent(items);
    proof {
        assert(content_values(items@) =~= texts_value(string_views(texts@))->List_0);
    }
    list
}

/// The metrics of a GPU as a JSON object.
pub open spec fn metrics_members(metrics: GpuMetrics) -> Seq<(Seq<char>, JsonValue)> {
    seq![
        ("temperature-edge"@, JsonValue::Number(metrics.temperatureEdge as usize)),
        ("temperature-hotspot"@, JsonValue::Number(metrics.temperatureHotspot as usize)),
        ("temperature-mem"@, JsonValue::Number(metrics.temperatureMem as usize)),
        ("temperature-vrgfx"@, JsonValue::Number(metrics.temperatureVrgfx as usize)),
        ("temperature-vrsoc"@, JsonValue::Number(metrics.temperatureVrsoc as usize)),
        ("temperature-vrmem"@, JsonValue::Number(metrics.temperatureVrmem as usize)),
        ("average-socket-power"@, JsonValue::Number(metrics.averageSocketPower as usize)),
        ("average-gfxclk-frequency"@, JsonValue::Number(metrics.averageGfxclkFrequency as usize)),
        ("average-sockclk-frequency"@, JsonValue::Number(metrics.averageSockclkFrequency as usize)),
        ("average-uclk-frequency"@, JsonValue::Number(metrics.averageUclkFrequency as usize)),
        ("current-gfxclk"@, JsonValue::Number(metrics.currentGfxclk as usize)),
        ("current-sockclk"@, JsonValue::Number(metrics.currentSockclk as usize)),
        ("throttle-status"@, JsonValue::Number(metrics.throttleStatus as usize)),
        ("current-fan-speed"@, JsonValue::Number(metrics.currentFanSpeed as usize)),
        ("pcie-link-width"@, JsonValue::Number(metrics.pcieLinkWidth as usize)),
        ("pcie-link-speed"@, JsonValue::Number(metrics.pcieLinkSpeed as usize)),
    ]
}

/// What is exported of the metrics of a GPU: nothing where there are
/// none.
pub open spec fn metrics_value(metrics: Option<GpuMetrics>) -> JsonValue {
    match metrics {
        None => JsonValue::Null,
        Some(m) => JsonValue::Object(metrics_members(m)),
    }
}

/// The JSON value that describes the metrics of a GPU.
pub fn gpuMetricsContent(metrics: &Option<GpuMetrics>) -> (content: rsjson::NodeContent)
    ensures
        content_value(content) == metrics_value(*metrics),
{
    match metrics {
        None => nullContent(),
        Some(m) => {
            let mut json = emptyJson();
            proof {
                reveal_strlit("temperature-edge");
                reveal_strlit("temperature-hotspot");
                reveal_strlit("temperature-mem");
                reveal_strlit("temperature-vrgfx");
                reveal_strlit("temperature-vrsoc");
                reveal_strlit("temperature-vrmem");
                reveal_strlit("average-socket-power");
                reveal_strlit("average-gfxclk-frequency");
                reveal_strlit("average-sockclk-frequency");
                reveal_strlit("average-uclk-frequency");
                reveal_strlit("current-gfxclk");
                reveal_strlit("current-sockclk");
                reveal_strlit("throttle-status");
                reveal_strlit("current-fan-speed");
                reveal_strlit("pcie-link-width");
                reveal_strlit("pcie-link-speed");
            }
            putPlain(&mut json, "temperature-edge", numberContent(m.temperatureEdge as usize));
            putPlain(
                &mut json,
                "temperature-hotspot",
                numberContent(m.temperatureHotspot as usize),
            );
            putPlain(&mut json, "temperature-mem", numberContent(m.temperatureMem as usize));
            putPlain(&mut json, "temperature-vrgfx", numberContent(m.temperatureVrgfx as usize));
            putPlain(&mut json, "temperature-vrsoc", numberContent(m.temperatureVrsoc as usize));
            putPlain(&mut json, "temperature-vrmem", numberContent(m.temperatureVrmem as usize));
            putPlain(
                &mut json,
                "average-socket-power",
                numberContent(m.averageSocketPower as usize),
            );
            putPlain(
                &mut json,
                "average-gfxclk-frequency",
                numberContent(m.averageGfxclkFrequency as usize),
            );
            putPlain(
                &mut json,
                "average-sockclk-frequency",
                numberContent(m.averageSockclkFrequency as usize),
            );
            putPlain(
                &mut json,
                "average-uclk-frequency",
                numberContent(m.averageUclkFrequency as usize),
            );
            putPlain(&mut json, "current-gfxclk", numberContent(m.currentGfxclk as usize));
            putPlain(&mut json, "current-sockclk", numberContent(m.currentSockclk as usize));
            putPlain(&mut json, "throttle-status", numberContent(m.throttleStatus as usize));
            putPlain(&mut json, "current-fan-speed", numberContent(m.currentFanSpeed as usize));
            putPlain(&mut json, "pcie-link-width", numberContent(m.pcieLinkWidth as usize));
            putPlain(&mut json, "pcie-link-speed", numberContent(m.pcieLinkSpeed as usize));
            proof {
                assert(json_members(json) =~= metrics_members(*m));
            }
            objectContent(json)
        },
    }
}

/// A binding of a device as a JSON object: its address and its device.
pub open spec fn ipv4_members(bound: IPv4View) -> Seq<(Seq<char>, JsonValue)> {
    seq![
        ("address"@, JsonValue::Text(bound.address)),
        ("interface"@, JsonValue::Text(bound.interface)),
    ]
}

/// Bindings as a JSON list of objects.
pub open spec fn ipv4_value(bound: Seq<IPv4View>) -> JsonValue {
    JsonValue::List(Seq::new(bound.len(), |i: int| JsonValue::Object(ipv4_members(bound[i]))))
}

/// The JSON list that describes the bindings `bound`, one object for each.
pub fn ipv4List(bound: &Vec<IPv4>) -> (list: rsjson::NodeContent)
    ensures
        content_value(list) == ipv4_value(ipv4_views(bound@)),
{
    let mut items: Vec<rsjson::NodeContent> = Vec::new();
    let mut i: usize = 0;
    while i < bound.len()
        invariant
            i <= bound.len(),
            items@.len() == i,
            forall|k: int|
                0 <= k < i ==> content_value(#[trigger] items@[k]) == JsonValue::Object(
                    ipv4_members(bound@[k]@),
                ),
        decreases bound.len() - i,
    {
        let mut json = emptyJson();
        proof {
            reveal_strlit("address");
            reveal_strlit("interface");
        }
        putPlain(&mut json, "address", textContent(bound[i].address.clone()));
        putPlain(&mut json, "interface", textContent(bound[i].interface.clone()));
        proof {
            assert(json_members(json) =~= ipv4_members(bound@[i as int]@));
        }
        items.push(objectContent(json));
        i += 1;
    }
    let list = listContent(items);
    proof {
        assert(content_values(items@) =~= ipv4_value(ipv4_views(bound@))->List_0);
    }
    list
}

/// A bus input as a JSON object.
pub open spec fn input_members(input: BusInputView) -> Seq<(Seq<char>, JsonValue)> {
    seq![
        ("bus"@, JsonValue::Number(input.bus as usize)),
        ("vendor"@, JsonValue::Number(input.vendor as usize)),
        ("product"@, JsonValue::Number(input.product as usize)),
        ("version"@, JsonValue::Number(input.version as usize)),
        ("physical-path"@, JsonValue::Text(input.physicalPath)),
        ("sysfs-path"@, JsonValue::Text(input.sysfsPath)),
        ("name"@, JsonValue::Text(input.name)),
        ("handles"@, texts_value(input.handles)),
        ("properties"@, JsonValue::Number(input.properties)),
        ("events"@, JsonValue::Number(input.events)),
        ("keys"@, texts_value(input.keys)),
        ("miscellaneous-events"@, JsonValue::Number(input.miscellaneousEvents)),
        ("led"@, JsonValue::Number(input.led)),
    ]
}

/// Bus inputs as a JSON list of objects.
pub open spec fn inputs_value(inputs: Seq<BusInputView>) -> JsonValue {
    JsonValue::List(Seq::new(inputs.len(), |i: int| JsonValue::Object(input_members(inputs[i]))))
}

/// The JSON object that describes a bus input.
pub fn busInputJson(input: &BusInput) -> (json: rsjson::Json)
    ensures
        json_members(json) == input_members(input@),
{
    let mut json = emptyJson();
    proof {
        reveal_strlit("bus");
        reveal_strlit("vendor");
        reveal_strlit("product");
        reveal_strlit("version");
        reveal_strlit("physical-path");
        reveal_strlit("sysfs-path");
        reveal_strlit("name");
        reveal_strlit("handles");
        reveal_strlit("properties");
        reveal_strlit("events");
        reveal_strlit("keys");
        reveal_strlit("miscellaneous-events");
        reveal_strlit("led");
    }
    putPlain(&mut json, "bus", numberContent(input.bus as usize));
    putPlain(&mut json, "vendor", numberContent(input.vendor as usize));
    putPlain(&mut json, "product", numberContent(input.product as usize));
    putPlain(&mut json, "version", numberContent(input.version as usize));
    putPlain(&mut json, "physical-path", textContent(input.physicalPath.clone()));
    putPlain(&mut json, "sysfs-path", textContent(input.sysfsPath.clone()));
    putPlain(&mut json, "name", textContent(input.name.clone()));
    putPlain(&mut json, "handles", textList(&input.handles));
    putPlain(&mut json, "properties", numberContent(input.properties));
    putPlain(&mut json, "events", numberContent(input.events));
    putPlain(&mut json, "keys", textList(&input.keys));
    putPlain(&mut json, "miscellaneous-events", numberContent(input.miscellaneousEvents));
    putPlain(&mut json, "led", numberContent(input.led));
    proof {
        assert(json_members(json) =~= input_members(input@));
    }
    json
}

/// The JSON list that describes `inputs`, one object for each.
pub fn busInputList(inputs: &Vec<BusInput>) -> (list: rsjson::NodeContent)
    ensures
        content_value(list) == inputs_value(input_views(inputs@)),
{
    let mut items: Vec<rsjson::NodeContent> = Vec::new();
    let mut i: usize = 0;
    while i < inputs.len()
        invariant
            i <= inputs.len(),
            items@.len() == i,
            forall|k: int|
                0 <= k < i ==> content_value(#[trigger] items@[k]) == JsonValue::Object(
                    input_members(inputs@[k]@),
                ),
        decreases inputs.len() - i,
    {
        let json = busInputJson(&inputs[i]);
        items.push(objectContent(json));
        i += 1;
    }
    let list = listContent(items);
    proof {
        assert(content_values(items@) =~= inputs_value(input_views(inputs@))->List_0);
    }
    list
}

/// The name of a battery status.
pub open spec fn battery_status_name(status: BatteryStatus) -> Seq<char> {
    match status {
        BatteryStatus::Charging => "Charging"@,
        BatteryStatus::Discharging => "Discharging"@,
        BatteryStatus::Full => "Full"@,
    }
}

/// What is exported of a battery: nothing where there is none.
pub open spec fn battery_value(battery: Option<Battery>) -> JsonValue {
    match battery {
        None => JsonValue::Null,
        Some(b) => JsonValue::Object(
            seq![
                ("capacity"@, JsonValue::Number(b.capacity as usize)),
                ("status"@, JsonValue::Text(battery_status_name(b.status))),
            ],
        ),
    }
}

/// The JSON value that describes a battery.
pub fn batteryContent(battery: &Option<Battery>) -> (content: rsjson::NodeContent)
    ensures
        content_value(content) == battery_value(*battery),
{
    match battery {
        None => nullContent(),
        Some(b) => {
            let mut json = emptyJson();
            let status = match b.status {
                BatteryStatus::Charging => "Charging".to_owned(),
                BatteryStatus::Discharging => "Discharging".to_owned(),
                BatteryStatus::Full => "Full".to_owned(),
            };
            proof {
                reveal_strlit("capacity");
                reveal_strlit("status");
            }
            putPlain(&mut json, "capacity", numberContent(b.capacity as usize));
            putPlain(&mut json, "status", textContent(status));
            proof {
                assert(json_members(json) =~= battery_value(*battery)->Object_0);
            }
            objectContent(json)
        },
    }
}

/// What is exported of a backlight: nothing where there is none.
pub open spec fn backlight_value(backlight: Option<Backlight>) -> JsonValue {
    match backlight {
        None => JsonValue::Null,
        Some(b) => JsonValue::Object(
            seq![
                ("brightness"@, JsonValue::Number(b.brightness as usize)),
                ("max-brightness"@, JsonValue::Number(b.maxBrightness as usize)),
            ],
        ),
    }
}

/// The JSON value that describes a backlight.
pub fn backlightContent(backlight: &Option<Backlight>) -> (content: rsjson::NodeContent)
    ensures
        content_value(content) == backlight_value(*backlight),
{
    match backlight {
        None => nullContent(),
        Some(b) => {
            let mut json = emptyJson();
            proof {
                reveal_strlit("brightness");
                reveal_strlit("max-brightness");
            }
            putPlain(&mut json, "brightness", numberContent(b.brightness as usize));
            putPlain(&mut json, "max-brightness", numberContent(b.maxBrightness as usize));
            proof {
                assert(json_members(json) =~= backlight_value(*backlight)->Object_0);
            }
            objectContent(json)
        },
    }
}

/// A firmware as a JSON object.
pub open spec fn bios_members(bios: Bios) -> Seq<(Seq<char>, JsonValue)> {
    seq![
        ("vendor"@, JsonValue::Text(bios.vendor@)),
        ("release"@, JsonValue::Text(bios.release@)),
        ("version"@, JsonValue::Text(bios.version@)),
        ("date"@, JsonValue::Text(bios.date@)),
    ]
}

/// A motherboard as a JSON object, its firmware an object in it.
pub open spec fn motherboard_members(board: Motherboard) -> Seq<(Seq<char>, JsonValue)> {
    seq![
        ("name"@, JsonValue::Text(board.name@)),
        ("vendor"@, JsonValue::Text(board.vendor@)),
        ("version"@, JsonValue::Text(board.version@)),
        ("bios"@, JsonValue::Object(bios_members(board.bios))),
    ]
}

/// The JSON object that describes a motherboard.
pub fn motherboardJson(board: &Motherboard) -> (json: rsjson::Json)
    ensures
        json_members(json) == motherboard_members(*board),
{
    proof {
        reveal_strlit("name");
        reveal_strlit("vendor");
        reveal_strlit("release");
        reveal_strlit("version");
        reveal_strlit("date");
        reveal_strlit("bios");
    }
    let mut bios = emptyJson();
    putPlain(&mut bios, "vendor", textContent(board.bios.vendor.clone()));
    putPlain(&mut bios, "release", textContent(board.bios.release.clone()));
    putPlain(&mut bios, "version", textContent(board.bios.version.clone()));
    putPlain(&mut bios, "date", textContent(board.bios.date.clone()));
    proof {
        assert(json_members(bios) =~= bios_members(board.bios));
    }
    let mut json = emptyJson();
    putPlain(&mut json, "name", textContent(board.name.clone()));
    putPlain(&mut json, "vendor", textContent(board.vendor.clone()));
    putPlain(&mut json, "version", textContent(board.version.clone()));
    putPlain(&mut json, "bios", objectContent(bios));
    proof {
        assert(json_members(json) =~= motherboard_members(*board));
    }
    json
}

/// The clock sources as a JSON object.
pub open spec fn clock_source_members(sources: ClockSource) -> Seq<(Seq<char>, JsonValue)> {
    seq![
        ("current"@, JsonValue::Text(sources.current@)),
        ("available"@, texts_value(string_views(sources.available@))),
    ]
}

/// The JSON object that describes the clock sources.
pub fn clockSourceJson(sources: &ClockSource) -> (json: rsjson::Json)
    ensures
        json_members(json) == clock_source_members(*sources),
{
    proof {
        reveal_strlit("current");
        reveal_strlit("available");
    }
    let mut json = emptyJson();
    putPlain(&mut json, "current", textContent(sources.current.clone()));
    putPlain(&mut json, "available", textList(&sources.available));
    proof {
        assert(json_members(json) =~= clock_source_members(*sources));
    }
    json
}

/// The name of a kind of interface.
pub open spec fn interface_type_name(kind: InterfaceType) -> Seq<char> {
    match kind {
        InterfaceType::Physical => "physical"@,
        InterfaceType::Virtual => "virtual"@,
    }
}

/// An interface as a member of a JSON object: under its name, which is
/// kept with a backslash before each double quote, an object with its
/// hardware address and its kind.
pub open spec fn interface_member(interface: NetworkInterface) -> (Seq<char>, JsonValue) {
    (
        kept_label(interface.name@),
        JsonValue::Object(
            seq![
                ("mac"@, JsonValue::Text(interface.macAddress@)),
                ("interface-type"@, JsonValue::Text(interface_type_name(interface.interfaceType))),
            ],
        ),
    )
}

/// Interfaces as the members of a JSON object.
pub open spec fn interfaces_members(interfaces: Seq<NetworkInterface>) -> Seq<
    (Seq<char>, JsonValue),
> {
    Seq::new(interfaces.len(), |i: int| interface_member(interfaces[i]))
}

/// The JSON object that describes `interfaces`, each under its name.
pub fn interfacesJson(interfaces: &Vec<NetworkInterface>) -> (json: rsjson::Json)
    ensures
        json_members(json) == interfaces_members(interfaces@),
{
    let mut json = emptyJson();
    let mut i: usize = 0;
    proof {
        assert(json_members(json) =~= interfaces_members(interfaces@).take(0));
    }
    while i < interfaces.len()
        invariant
            i <= interfaces.len(),
            json_members(json) == interfaces_members(interfaces@).take(i as int),
        decreases interfaces.len() - i,
    {
        let interface = &interfaces[i];
        let kind = match interface.interfaceType {
            InterfaceType::Physical => "physical".to_owned(),
            InterfaceType::Virtual => "virtual".to_owned(),
        };
        proof {
            reveal_strlit("mac");
            reveal_strlit("interface-type");
        }
        let mut inner = emptyJson();
        putPlain(&mut inner, "mac", textContent(interface.macAddress.clone()));
        putPlain(&mut inner, "interface-type", textContent(kind));
        proof {
            assert(json_members(inner) =~= interface_member(*interface).1->Object_0);
        }
        put(&mut json, interface.name.as_str(), objectContent(inner));
        i += 1;
        proof {
            assert(json_members(json) =~= interfaces_members(interfaces@).take(i as int));
        }
    }
    proof {
        assert(interfaces_members(interfaces@).take(i as int) =~= interfaces_members(
            interfaces@,
        ));
    }
    json
}

/// A number that may be missing as a JSON value.
pub open spec fn optional_number_value(number: Option<usize>) -> JsonValue {
    match number {
        None => JsonValue::Null,
        Some(n) => JsonValue::Number(n),
    }
}

/// The JSON value that holds `number`, or nothing where it is missing.
pub fn optionalNumber(number: Option<usize>) -> (content: rsjson::NodeContent)
    ensures
        content_value(content) == optional_number_value(number),
{
    match number {
        None => nullContent(),
        Some(n) => numberContent(n),
    }
}

/// A truth value that may be missing as a JSON value.
pub open spec fn optional_flag_value(flag: Option<bool>) -> JsonValue {
    match flag {
        None => JsonValue::Null,
        Some(b) => JsonValue::Flag(b),
    }
}

/// The JSON value that holds `flag`, or nothing where it is missing.
pub fn optionalFlag(flag: Option<bool>) -> (content: rsjson::NodeContent)
    ensures
        content_value(content) == optional_flag_value(flag),
{
    match flag {
        None => nullContent(),
        Some(b) => flagContent(b),
    }
}

/// A partition as a JSON object.
pub open spec fn partition_members(partition: StoragePartition) -> Seq<(Seq<char>, JsonValue)> {
    seq![
        ("device"@, JsonValue::Text(partition.device@)),
        ("mount-point"@, JsonValue::Text(partition.mountPoint@)),
        ("filesystem"@, JsonValue::Text(partition.fileSystem@)),
        ("size"@, JsonValue::Number(partition.size.bytes() as usize)),
        ("start-point"@, JsonValue::Number(partition.startPoint)),
    ]
}

/// Partitions as a JSON list of objects.
pub open spec fn partitions_value(partitions: Seq<StoragePartition>) -> JsonValue {
    JsonValue::List(
        Seq::new(partitions.len(), |i: int| JsonValue::Object(partition_members(partitions[i]))),
    )
}

/// The JSON list that describes `partitions`, one object for each.
pub fn partitionsList(partitions: &Vec<StoragePartition>) -> (list: rsjson::NodeContent)
    ensures
        content_value(list) == partitions_value(partitions@),
{
    let mut items: Vec<rsjson::NodeContent> = Vec::new();
    let mut i: usize = 0;
    while i < partitions.len()
        invariant
            i <= partitions.len(),
            items@.len() == i,
            forall|k: int|
                0 <= k < i ==> content_value(#[trigger] items@[k]) == JsonValue::Object(
                    partition_members(partitions@[k]),
                ),
        decreases partitions.len() - i,
    {
        let partition = &partitions[i];
        let mut json = emptyJson();
        proof {
            reveal_strlit("device");
            reveal_strlit("mount-point");
            reveal_strlit("filesystem");
            reveal_strlit("size");
            reveal_strlit("start-point");
        }
        putPlain(&mut json, "device", textContent(partition.device.clone()));
        putPlain(&mut json, "mount-point", textContent(partition.mountPoint.clone()));
        putPlain(&mut json, "filesystem", textContent(partition.fileSystem.clone()));
        putPlain(&mut json, "size", numberContent(partition.size.b()));
        putPlain(&mut json, "start-point", numberContent(partition.startPoint));
        proof {
            assert(json_members(json) =~= partition_members(*partition));
        }
        items.push(objectContent(json));
        i += 1;
    }
    let list = listContent(items);
    proof {
        assert(content_values(items@) =~= partitions_value(partitions@)->List_0);
    }
    list
}

/// A storage device as a JSON object, its partitions a list in it.
pub open spec fn device_members(device: StorageDevice) -> Seq<(Seq<char>, JsonValue)> {
    seq![
        ("device"@, JsonValue::Text(device.device@)),
        ("model"@, JsonValue::Text(device.model@)),
        ("size"@, JsonValue::Number(device.size.bytes() as usize)),
        ("partitions"@, partitions_value(device.partitions@)),
    ]
}

/// Storage devices as a JSON list of objects.
pub open spec fn devices_value(devices: Seq<StorageDevice>) -> JsonValue {
    JsonValue::List(
        Seq::new(devices.len(), |i: int| JsonValue::Object(device_members(devices[i]))),
    )
}

/// The JSON list that describes `devices`, one object for each.
pub fn storageDevicesList(devices: &Vec<StorageDevice>) -> (list: rsjson::NodeContent)
    ensures
        content_value(list) == devices_value(devices@),
{
    let mut items: Vec<rsjson::NodeContent> = Vec::new();
    let mut i: usize = 0;
    while i < devices.len()
        invariant
            i <= devices.len(),
            items@.len() == i,
            forall|k: int|
                0 <= k < i ==> content_value(#[trigger] items@[k]) == JsonValue::Object(
                    device_members(devices@[k]),
                ),
        decreases devices.len() - i,
    {
        let device = &devices[i];
        let mut json = emptyJson();
        proof {
            reveal_strlit("device");
            reveal_strlit("model");
            reveal_strlit("size");
            reveal_strlit("partitions");
        }
        putPlain(&mut json, "device", textContent(device.device.clone()));
        putPlain(&mut json, "model", textContent(device.model.clone()));
        putPlain(&mut json, "size", numberContent(device.size.b()));
        putPlain(&mut json, "partitions", partitionsList(&device.partitions));
        proof {
            assert(json_members(json) =~= device_members(*device));
        }
        items.push(objectContent(json));
        i += 1;
    }
    let list = listContent(items);
    proof {
        assert(content_values(items@) =~= devices_value(devices@)->List_0);
    }
    list
}

} // verus!
