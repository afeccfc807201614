//! The hardware of a node: the Thunderbolt ports with what is connected to
//! them, external graphics processors, and the versions of its software.

use crate::json;
use crate::table;
use crate::table::TextMap;
use crate::text;
use vstd::prelude::*;
use vstd::string::*;

verus! {

// ---------------------------------------------------------------------------
// Thunderbolt
// ---------------------------------------------------------------------------

/// The number of the port that a line of `networksetup` names.
pub open spec fn port_number(line: Seq<char>) -> Option<nat> {
    if text::has(line, "Thunderbolt"@) && !text::has(line, "Bridge"@) {
        match text::nth_text_piece(line, "Thunderbolt "@, 1) {
            Some(rest) => text::unsigned(text::trimmed(rest), 255),
            None => None,
        }
    } else {
        None
    }
}

/// The number of the port that a line of `networksetup` names.
fn read_port_number(line: &str) -> (r: Option<u8>)
    ensures
        r is Some <==> port_number(line@) is Some,
        r matches Some(n) ==> port_number(line@) == Some(n as nat),
{
    if text::contains(line, "Thunderbolt") && !text::contains(line, "Bridge") {
        proof {
            reveal_strlit("Thunderbolt ");
        }
        match text::text_piece(line, "Thunderbolt ", 1) {
            Some(rest) => text::parse_u8(&text::trim(&rest)),
            None => None,
        }
    } else {
        None
    }
}

/// A port with the number zero is named. Ports are counted from one.
pub open spec fn names_port_zero(lines: Seq<Seq<char>>) -> bool {
    exists|i: int| 0 <= i < lines.len() && port_number(#[trigger] lines[i]) == Some(0nat)
}

/// Whether the output of `networksetup` names a port with the number zero.
pub fn has_port_zero(output: &str) -> (r: bool)
    ensures
        r == names_port_zero(text::lines_of(output@)),
{
    let all: Vec<String> = text::lines(output);
    let ghost ls = all.deep_view();
    let mut i: usize = 0;
    while i < all.len()
        invariant
            i <= all@.len(),
            ls == all.deep_view(),
            ls == text::lines_of(output@),
            forall|k: int| 0 <= k < i ==> port_number(#[trigger] ls[k]) != Some(0nat),
        decreases all@.len() - i,
    {
        assert(ls[i as int] == all@[i as int]@);
        if let Some(n) = read_port_number(&all[i]) {
            if n == 0 {
                return true;
            }
        }
        i = i + 1;
    }
    false
}

/// The interfaces of the buses that the first `k` lines of `networksetup`
/// name, with the line behind each: a bus is counted from zero.
pub open spec fn buses_in(lines: Seq<Seq<char>>, k: nat) -> Seq<(Seq<char>, Seq<char>)>
    decreases k,
{
    if k == 0 || k > lines.len() {
        Seq::empty()
    } else {
        let rest = buses_in(lines, (k - 1) as nat);
        match port_number(lines[k - 1]) {
            Some(n) => if k < lines.len() {
                match text::after_prefix(lines[k as int], "Device: "@) {
                    Some(dev) => table::with_entry(
                        rest,
                        text::dec((n - 1) as nat),
                        text::trimmed(dev),
                    ),
                    None => rest,
                }
            } else {
                rest
            },
            None => rest,
        }
    }
}

/// The interface of each bus in the output of
/// `networksetup -listallhardwareports`.
pub fn build_tb_bus_map(output: &str) -> (r: TextMap)
    requires
        !names_port_zero(text::lines_of(output@)),
    ensures
        r.wf(),
        r@ == buses_in(text::lines_of(output@), text::lines_of(output@).len()),
{
    let all: Vec<String> = text::lines(output);
    let ghost ls = all.deep_view();
    let mut out: TextMap = TextMap::new();
    let mut i: usize = 0;
    while i < all.len()
        invariant
            i <= all@.len(),
            ls == all.deep_view(),
            !names_port_zero(ls),
            out.wf(),
            out@ == buses_in(ls, i as nat),
        decreases all@.len() - i,
    {
        assert(ls[i as int] == all@[i as int]@);
        if let Some(n) = read_port_number(&all[i]) {
            assert(n != 0);
            if i + 1 < all.len() {
                assert(ls[i + 1] == all@[i + 1]@);
                if let Some(dev) = text::strip_prefix(&all[i + 1], "Device: ") {
                    out.insert(&text::decimal((n - 1) as u64), &text::trim(&dev));
                }
            }
        }
        i = i + 1;
    }
    assert(ls.len() == all@.len());
    out
}

/// A device that is connected.
#[derive(Debug)]
pub struct TbDevice {
    pub name: String,
    pub model_id: String,
}

/// The texts of a device that is connected.
pub struct TbDeviceView {
    pub name: Seq<char>,
    pub model_id: Seq<char>,
}

impl DeepView for TbDevice {
    type V = TbDeviceView;

    open spec fn deep_view(&self) -> TbDeviceView {
        TbDeviceView { name: self.name@, model_id: self.model_id@ }
    }
}

/// A text, or nothing where there is none.
pub open spec fn or_empty(t: Option<Seq<char>>) -> Seq<char> {
    match t {
        Some(t) => t,
        None => Seq::empty(),
    }
}

/// A text, or nothing where there is none.
fn or_nothing(t: Option<String>) -> (r: String)
    ensures
        r@ == or_empty(t.deep_view()),
{
    match t {
        Some(t) => t,
        None => String::new(),
    }
}

/// The device that an item of `system_profiler` describes, if Apple made it.
pub open spec fn apple_device(v: serde_json::Value) -> Option<TbDeviceView> {
    let model = or_empty(json::text_at(v, "device_name_key"@));
    if text::has(or_empty(json::text_at(v, "vendor_name_key"@)), "Apple"@) && model.len() > 0 {
        Some(TbDeviceView { name: or_empty(json::text_at(v, "_name"@)), model_id: model })
    } else {
        None
    }
}

/// The devices of Apple among the first `k` items, each before those that are
/// connected to it. The items are nested less deep than `depth`.
pub open spec fn apple_devices(items: Seq<serde_json::Value>, depth: nat, k: nat) -> Seq<
    TbDeviceView,
>
    decreases depth, k,
{
    if k == 0 || k > items.len() {
        Seq::empty()
    } else {
        let v = items[k - 1];
        let rest = apple_devices(items, depth, (k - 1) as nat);
        let here = match apple_device(v) {
            Some(d) => rest.push(d),
            None => rest,
        };
        match json::items_at(v, "_items"@) {
            Some(sub) => if json::json_depth(v) < depth {
                here + apple_devices(sub, json::json_depth(v), sub.len())
            } else {
                here
            },
            None => here,
        }
    }
}

/// The device that an item of `system_profiler` describes, if Apple made it.
fn read_apple_device(v: &serde_json::Value) -> (r: Option<TbDevice>)
    ensures
        r.deep_view() == apple_device(*v),
{
    let vendor: String = or_nothing(json::member_text(v, "vendor_name_key"));
    let model_id: String = or_nothing(json::member_text(v, "device_name_key"));
    let name: String = or_nothing(json::member_text(v, "_name"));
    if text::contains(&vendor, "Apple") && !model_id.as_str().is_empty() {
        Some(TbDevice { name, model_id })
    } else {
        None
    }
}

/// Adds the devices of Apple among the items.
fn find_apple_devices(
    items: &Vec<serde_json::Value>,
    Ghost(depth): Ghost<nat>,
    out: &mut Vec<TbDevice>,
)
    requires
        forall|i: int| 0 <= i < items@.len() ==> json::json_depth(#[trigger] items@[i]) < depth,
    ensures
        final(out).deep_view() == old(out).deep_view() + apple_devices(
            items@,
            depth,
            items@.len(),
        ),
    decreases depth,
{
    let ghost before = out.deep_view();
    let mut i: usize = 0;
    assert(before + apple_devices(items@, depth, 0) =~= before);
    while i < items.len()
        invariant
            i <= items@.len(),
            forall|i: int|
                0 <= i < items@.len() ==> json::json_depth(#[trigger] items@[i]) < depth,
            out.deep_view() == before + apple_devices(items@, depth, i as nat),
        decreases items@.len() - i,
    {
        let v: &serde_json::Value = &items[i];
        let ghost rest = apple_devices(items@, depth, i as nat);
        if let Some(d) = read_apple_device(v) {
            text::push_item(out, d);
        }
        let ghost here = match apple_device(*v) {
            Some(d) => rest.push(d),
            None => rest,
        };
        assert(out.deep_view() =~= before + here);
        if let Some(sub) = json::member_items(v, "_items") {
            assert(json::json_depth(*v) < depth);
            find_apple_devices(sub, Ghost(json::json_depth(*v)), out);
            assert(out.deep_view() =~= before + (here + apple_devices(
                sub@,
                json::json_depth(*v),
                sub@.len(),
            )));
        }
        i = i + 1;
        assert(out.deep_view() =~= before + apple_devices(items@, depth, i as nat));
    }
}

/// What `system_profiler` writes of a Thunderbolt bus, as texts.
pub struct BusRecord {
    pub receptacle: Option<String>,
    pub speed: Option<String>,
    pub status: Option<String>,
    pub domain_uuid: Option<String>,
    pub switch_uid: Option<String>,
    pub name: Option<String>,
    pub peer_domain_uuid: Option<String>,
    pub devices: Vec<TbDevice>,
}

/// The texts of what is written of a bus.
pub struct BusRecordView {
    pub receptacle: Option<Seq<char>>,
    pub speed: Option<Seq<char>>,
    pub status: Option<Seq<char>>,
    pub domain_uuid: Option<Seq<char>>,
    pub switch_uid: Option<Seq<char>>,
    pub name: Option<Seq<char>>,
    pub peer_domain_uuid: Option<Seq<char>>,
    pub devices: Seq<TbDeviceView>,
}

impl DeepView for BusRecord {
    type V = BusRecordView;

    open spec fn deep_view(&self) -> BusRecordView {
        BusRecordView {
            receptacle: self.receptacle.deep_view(),
            speed: self.speed.deep_view(),
            status: self.status.deep_view(),
            domain_uuid: self.domain_uuid.deep_view(),
            switch_uid: self.switch_uid.deep_view(),
            name: self.name.deep_view(),
            peer_domain_uuid: self.peer_domain_uuid.deep_view(),
            devices: self.devices.deep_view(),
        }
    }
}

/// The text under a key of the tag of a bus.
pub open spec fn tag_text(bus: serde_json::Value, key: Seq<char>) -> Option<Seq<char>> {
    match json::json_member(bus, "receptacle_1_tag"@) {
        Some(t) => json::text_at(t, key),
        None => None,
    }
}

/// The domain of the first device at a bus.
pub open spec fn peer_domain(bus: serde_json::Value) -> Option<Seq<char>> {
    match json::items_at(bus, "_items"@) {
        Some(items) => if items.len() > 0 {
            json::text_at(items[0], "domain_uuid_key"@)
        } else {
            None
        },
        None => None,
    }
}

/// What is written of a bus.
pub open spec fn bus_in(bus: serde_json::Value) -> BusRecordView {
    BusRecordView {
        receptacle: tag_text(bus, "receptacle_id_key"@),
        speed: tag_text(bus, "current_speed_key"@),
        status: tag_text(bus, "receptacle_status_key"@),
        domain_uuid: json::text_at(bus, "domain_uuid_key"@),
        switch_uid: json::text_at(bus, "switch_uid_key"@),
        name: json::text_at(bus, "_name"@),
        peer_domain_uuid: peer_domain(bus),
        devices: match json::items_at(bus, "_items"@) {
            Some(items) => apple_devices(items, json::json_depth(bus), items.len()),
            None => Seq::empty(),
        },
    }
}

/// The text under a key of the tag of a bus.
fn read_tag(bus: &serde_json::Value, key: &str) -> (r: Option<String>)
    ensures
        r.deep_view() == tag_text(*bus, key@),
{
    match json::member(bus, "receptacle_1_tag") {
        Some(t) => json::member_text(t, key),
        None => None,
    }
}

/// What is written of a bus.
fn read_bus(bus: &serde_json::Value) -> (r: BusRecord)
    ensures
        r.deep_view() == bus_in(*bus),
{
    let mut devices: Vec<TbDevice> = Vec::new();
    let mut peer_domain_uuid: Option<String> = None;
    if let Some(items) = json::member_items(bus, "_items") {
        find_apple_devices(items, Ghost(json::json_depth(*bus)), &mut devices);
        if items.len() > 0 {
            peer_domain_uuid = json::member_text(&items[0], "domain_uuid_key");
        }
    }
    assert(devices.deep_view() =~= bus_in(*bus).devices);
    BusRecord {
        receptacle: read_tag(bus, "receptacle_id_key"),
        speed: read_tag(bus, "current_speed_key"),
        status: read_tag(bus, "receptacle_status_key"),
        domain_uuid: json::member_text(bus, "domain_uuid_key"),
        switch_uid: json::member_text(bus, "switch_uid_key"),
        name: json::member_text(bus, "_name"),
        peer_domain_uuid,
        devices,
    }
}

/// What `system_profiler` writes of the Thunderbolt buses, if it is JSON.
pub open spec fn buses_of(output: Seq<char>) -> Option<Seq<BusRecordView>> {
    match json::json_of(output) {
        None => None,
        Some(v) => Some(
            match json::items_at(v, "SPThunderboltDataType"@) {
                Some(items) => items.map_values(|b: serde_json::Value| bus_in(b)),
                None => Seq::empty(),
            },
        ),
    }
}

/// Reads what `system_profiler SPThunderboltDataType -json` writes of the
/// buses, if it is JSON.
pub fn read_buses(output: &str) -> (r: Option<Vec<BusRecord>>)
    ensures
        r.deep_view() == buses_of(output@),
{
    match json::parse(output) {
        None => None,
        Some(v) => {
            let mut out: Vec<BusRecord> = Vec::new();
            match json::member_items(&v, "SPThunderboltDataType") {
                Some(items) => {
                    let ghost want = items@.map_values(|b: serde_json::Value| bus_in(b));
                    let mut i: usize = 0;
                    while i < items.len()
                        invariant
                            i <= items@.len(),
                            want == items@.map_values(|b: serde_json::Value| bus_in(b)),
                            out.deep_view() == want.take(i as int),
                        decreases items@.len() - i,
                    {
                        let b: BusRecord = read_bus(&items[i]);
                        text::push_item(&mut out, b);
                        i = i + 1;
                        assert(out.deep_view() =~= want.take(i as int));
                    }
                    assert(want.take(i as int) =~= want);
                },
                None => {
                    assert(out.deep_view() =~= Seq::<BusRecordView>::empty());
                },
            }
            Some(out)
        },
    }
}

/// A Thunderbolt port.
pub struct TbPort {
    pub port: Option<u64>,
    pub connected: bool,
    pub speed: Option<String>,
    pub bus_index: Option<u8>,
    pub domain_uuid: String,
    pub switch_uid: String,
    pub peer_domain_uuid: Option<String>,
    pub devices: Vec<TbDevice>,
}

/// The number in the name of a bus.
pub open spec fn bus_number(name: Option<Seq<char>>) -> Option<nat> {
    match name {
        Some(n) => match text::after_prefix(n, "thunderboltusb4_bus_"@) {
            Some(digits) => text::unsigned(digits, 255),
            None => None,
        },
        None => None,
    }
}

/// The port that a bus belongs to. It counts as connected where its status
/// holds that word or a device of Apple is connected.
pub fn describe_port(bus: BusRecord) -> (r: TbPort)
    ensures
        r.port is Some <==> (bus.receptacle.deep_view() matches Some(t) && text::unsigned(
            t,
            u64::MAX as nat,
        ) is Some),
        r.port matches Some(n) ==> text::unsigned(bus.receptacle.deep_view()->0, u64::MAX as nat)
            == Some(n as nat),
        r.connected == (text::has(or_empty(bus.status.deep_view()), "connected"@)
            || bus.devices@.len() > 0),
        r.speed.deep_view() == bus.speed.deep_view(),
        r.bus_index is Some <==> bus_number(bus.name.deep_view()) is Some,
        r.bus_index matches Some(n) ==> bus_number(bus.name.deep_view()) == Some(n as nat),
        r.domain_uuid@ == or_empty(bus.domain_uuid.deep_view()),
        r.switch_uid@ == or_empty(bus.switch_uid.deep_view()),
        r.peer_domain_uuid.deep_view() == (match bus.peer_domain_uuid.deep_view() {
            Some(d) if d.len() > 0 => Some(d),
            _ => None,
        }),
        r.devices.deep_view() == bus.devices.deep_view(),
{
    let port: Option<u64> = match &bus.receptacle {
        Some(t) => text::parse_unsigned(t, u64::MAX),
        None => None,
    };
    let bus_index: Option<u8> = match &bus.name {
        Some(n) => match text::strip_prefix(n, "thunderboltusb4_bus_") {
            Some(digits) => text::parse_u8(&digits),
            None => None,
        },
        None => None,
    };
    let status: String = or_nothing(bus.status);
    let connected: bool = text::contains(&status, "connected") || bus.devices.len() > 0;
    let peer_domain_uuid: Option<String> = match bus.peer_domain_uuid {
        Some(d) => if d.as_str().is_empty() {
            None
        } else {
            Some(d)
        },
        None => None,
    };
    TbPort {
        port,
        connected,
        speed: bus.speed,
        bus_index,
        domain_uuid: or_nothing(bus.domain_uuid),
        switch_uid: or_nothing(bus.switch_uid),
        peer_domain_uuid,
        devices: bus.devices,
    }
}

// ---------------------------------------------------------------------------
// External graphics processors
// ---------------------------------------------------------------------------

/// What is known of the driver of external graphics processors.
#[derive(Debug)]
pub struct DriverInfo {
    pub installed: bool,
    pub version: Option<String>,
    pub status: String,
}

/// The texts of what is known of the driver.
pub struct DriverView {
    pub installed: bool,
    pub version: Option<Seq<char>>,
    pub status: Seq<char>,
}

impl DeepView for DriverInfo {
    type V = DriverView;

    open spec fn deep_view(&self) -> DriverView {
        DriverView {
            installed: self.installed,
            version: self.version.deep_view(),
            status: self.status@,
        }
    }
}

/// The version that a line of `systemextensionsctl` gives in brackets, up to
/// a slash.
pub open spec fn driver_version(line: Seq<char>) -> Option<Seq<char>> {
    match text::nth_piece(line, '(', 1) {
        Some(rest) => Some(
            text::trimmed(text::split_on(text::split_on(rest, ')')[0], '/')[0]),
        ),
        None => None,
    }
}

/// What a line of `systemextensionsctl` says of the driver.
pub open spec fn driver_in(line: Seq<char>) -> DriverView {
    DriverView {
        installed: true,
        version: driver_version(line),
        status: if text::has(line, "activated"@) && text::has(line, "enabled"@) {
            "activated"@
        } else if text::has(line, "activated"@) {
            "activated_disabled"@
        } else {
            "installed"@
        },
    }
}

/// What a line of `systemextensionsctl` says of the driver.
pub fn read_driver(line: &str) -> (r: DriverInfo)
    ensures
        r.deep_view() == driver_in(line@),
{
    let version: Option<String> = match text::piece(line, '(', 1) {
        Some(rest) => {
            let a: Vec<String> = text::split(&rest, ')');
            assert(a.deep_view()[0] == a@[0]@);
            let b: Vec<String> = text::split(&a[0], '/');
            assert(b.deep_view()[0] == b@[0]@);
            Some(text::trim(&b[0]))
        },
        None => None,
    };
    let status: String = if text::contains(line, "activated") && text::contains(line, "enabled") {
        text::own("activated")
    } else if text::contains(line, "activated") {
        text::own("activated_disabled")
    } else {
        text::own("installed")
    };
    DriverInfo { installed: true, version, status }
}

/// The line is about the driver.
pub open spec fn driver_line(line: Seq<char>) -> bool {
    text::has(text::lowercase(line), "tinygpu"@) || text::has(
        text::lowercase(line),
        "tinygrad"@,
    )
}

/// What the first line about the driver says of it.
pub open spec fn driver_among(lines: Seq<Seq<char>>) -> DriverView
    decreases lines.len(),
{
    if lines.len() == 0 {
        DriverView { installed: false, version: None, status: "not_found"@ }
    } else if driver_line(lines[0]) {
        driver_in(lines[0])
    } else {
        driver_among(lines.drop_first())
    }
}

/// What is known of the driver, given the output of
/// `systemextensionsctl list`, if it could be run.
pub fn find_driver(output: &Option<String>) -> (r: DriverInfo)
    ensures
        r.deep_view() == (match output.deep_view() {
            Some(out) => driver_among(text::lines_of(out)),
            None => DriverView { installed: false, version: None, status: "check_failed"@ },
        }),
{
    match output {
        None => DriverInfo { installed: false, version: None, status: text::own("check_failed") },
        Some(out) => {
            let all: Vec<String> = text::lines(out);
            let ghost ls = all.deep_view();
            let mut i: usize = 0;
            assert(ls.skip(0) =~= ls);
            while i < all.len()
                invariant
                    i <= all@.len(),
                    ls == all.deep_view(),
                    ls == text::lines_of(out@),
                    output.deep_view() == Some(out@),
                    driver_among(ls) == driver_among(ls.skip(i as int)),
                decreases all@.len() - i,
            {
                assert(ls.skip(i as int)[0] == all@[i as int]@);
                assert(ls.skip(i as int).drop_first() =~= ls.skip(i + 1));
                let lower: String = text::to_lowercase(&all[i]);
                if text::contains(&lower, "tinygpu") || text::contains(&lower, "tinygrad") {
                    return read_driver(&all[i]);
                }
                i = i + 1;
            }
            DriverInfo { installed: false, version: None, status: text::own("not_found") }
        },
    }
}

/// What `system_profiler` writes of a graphics processor, as texts.
pub struct GpuRecord {
    pub model: Option<String>,
    pub vendor: Option<String>,
    pub vram: Option<String>,
    pub bus: Option<String>,
    pub slot: Option<String>,
    pub device_id: Option<String>,
}

/// The texts of what is written of a graphics processor.
pub struct GpuRecordView {
    pub model: Option<Seq<char>>,
    pub vendor: Option<Seq<char>>,
    pub vram: Option<Seq<char>>,
    pub bus: Option<Seq<char>>,
    pub slot: Option<Seq<char>>,
    pub device_id: Option<Seq<char>>,
}

impl DeepView for GpuRecord {
    type V = GpuRecordView;

    open spec fn deep_view(&self) -> GpuRecordView {
        GpuRecordView {
            model: self.model.deep_view(),
            vendor: self.vendor.deep_view(),
            vram: self.vram.deep_view(),
            bus: self.bus.deep_view(),
            slot: self.slot.deep_view(),
            device_id: self.device_id.deep_view(),
        }
    }
}

/// The text of the member under the first key that has a member.
pub open spec fn text_at_either(v: serde_json::Value, a: Seq<char>, b: Seq<char>) -> Option<
    Seq<char>,
> {
    match json::json_member(v, a) {
        Some(m) => json::json_text(m),
        None => json::text_at(v, b),
    }
}

/// The text of the member under the first key that has a member.
fn read_either(v: &serde_json::Value, a: &str, b: &str) -> (r: Option<String>)
    ensures
        r.deep_view() == text_at_either(*v, a@, b@),
{
    match json::member(v, a) {
        Some(m) => json::as_text(m),
        None => json::member_text(v, b),
    }
}

/// What is written of a graphics processor.
pub open spec fn gpu_in(v: serde_json::Value) -> GpuRecordView {
    GpuRecordView {
        model: json::text_at(v, "sppci_model"@),
        vendor: text_at_either(v, "sppci_vendor"@, "spdisplays_vendor"@),
        vram: text_at_either(v, "sppci_vram"@, "_spdisplays_vram"@),
        bus: json::text_at(v, "sppci_bus"@),
        slot: json::text_at(v, "sppci_slot_name"@),
        device_id: json::text_at(v, "sppci_device_id"@),
    }
}

/// What `system_profiler` writes of the graphics processors.
pub open spec fn gpus_of(output: Seq<char>) -> Seq<GpuRecordView> {
    match json::json_of(output) {
        Some(v) => match json::items_at(v, "SPDisplaysDataType"@) {
            Some(items) => items.map_values(|g: serde_json::Value| gpu_in(g)),
            None => Seq::empty(),
        },
        None => Seq::empty(),
    }
}

/// Reads what `system_profiler SPDisplaysDataType -json` writes of the
/// graphics processors.
pub fn read_gpus(output: &str) -> (r: Vec<GpuRecord>)
    ensures
        r.deep_view() == gpus_of(output@),
{
    let mut out: Vec<GpuRecord> = Vec::new();
    assert(out.deep_view() =~= Seq::<GpuRecordView>::empty());
    if let Some(v) = json::parse(output) {
        if let Some(items) = json::member_items(&v, "SPDisplaysDataType") {
            let ghost want = items@.map_values(|g: serde_json::Value| gpu_in(g));
            let mut i: usize = 0;
            while i < items.len()
                invariant
                    i <= items@.len(),
                    want == items@.map_values(|g: serde_json::Value| gpu_in(g)),
                    out.deep_view() == want.take(i as int),
                decreases items@.len() - i,
            {
                let g: &serde_json::Value = &items[i];
                let rec = GpuRecord {
                    model: json::member_text(g, "sppci_model"),
                    vendor: read_either(g, "sppci_vendor", "spdisplays_vendor"),
                    vram: read_either(g, "sppci_vram", "_spdisplays_vram"),
                    bus: json::member_text(g, "sppci_bus"),
                    slot: json::member_text(g, "sppci_slot_name"),
                    device_id: json::member_text(g, "sppci_device_id"),
                };
                assert(rec.deep_view() == want[i as int]);
                text::push_item(&mut out, rec);
                i = i + 1;
                assert(out.deep_view() =~= want.take(i as int));
            }
            assert(want.take(i as int) =~= want);
        }
    }
    out
}

/// The vendor of a graphics processor, by its name in small letters.
pub open spec fn vendor_of(lower: Seq<char>) -> Seq<char> {
    if text::has(lower, "nvidia"@) {
        "nvidia"@
    } else if text::has(lower, "amd"@) || text::has(lower, "ati"@) {
        "amd"@
    } else if text::has(lower, "intel"@) {
        "intel"@
    } else {
        "unknown"@
    }
}

/// The vendor of a graphics processor, by its name in small letters.
pub fn gpu_vendor(lower: &str) -> (r: String)
    ensures
        r@ == vendor_of(lower@),
{
    if text::contains(lower, "nvidia") {
        text::own("nvidia")
    } else if text::contains(lower, "amd") || text::contains(lower, "ati") {
        text::own("amd")
    } else if text::contains(lower, "intel") {
        text::own("intel")
    } else {
        text::own("unknown")
    }
}

/// The kind of a bus, by its name and its name in small letters.
pub open spec fn bus_kind(bus: Seq<char>, lower: Seq<char>) -> Seq<char> {
    if text::has(lower, "thunderbolt"@) {
        "thunderbolt"@
    } else if text::has(lower, "usb"@) {
        "usb4"@
    } else if text::has(lower, "pci"@) {
        "pcie"@
    } else {
        bus
    }
}

/// The kind of a bus, by its name and its name in small letters.
pub fn gpu_bus(bus: &str, lower: &str) -> (r: String)
    ensures
        r@ == bus_kind(bus@, lower@),
{
    if text::contains(lower, "thunderbolt") {
        text::own("thunderbolt")
    } else if text::contains(lower, "usb") {
        text::own("usb4")
    } else if text::contains(lower, "pci") {
        text::own("pcie")
    } else {
        text::own(bus)
    }
}

/// An external graphics processor.
#[derive(Debug)]
pub struct Gpu {
    pub name: String,
    pub vendor: String,
    /// The number that gives the size of its memory, as it is written.
    pub vram: Option<String>,
    /// The number counts megabytes, and not gigabytes.
    pub vram_in_mb: bool,
    pub bus: String,
    pub pci_slot: String,
    pub device_id: String,
}

/// The texts of an external graphics processor.
pub struct GpuView {
    pub name: Seq<char>,
    pub vendor: Seq<char>,
    pub vram: Option<Seq<char>>,
    pub vram_in_mb: bool,
    pub bus: Seq<char>,
    pub pci_slot: Seq<char>,
    pub device_id: Seq<char>,
}

impl DeepView for Gpu {
    type V = GpuView;

    open spec fn deep_view(&self) -> GpuView {
        GpuView {
            name: self.name@,
            vendor: self.vendor@,
            vram: self.vram.deep_view(),
            vram_in_mb: self.vram_in_mb,
            bus: self.bus@,
            pci_slot: self.pci_slot@,
            device_id: self.device_id@,
        }
    }
}

/// A text, or `d` where there is none.
pub open spec fn or_text(t: Option<Seq<char>>, d: Seq<char>) -> Seq<char> {
    match t {
        Some(t) => t,
        None => d,
    }
}

/// The graphics processor that is described, unless it is one of Apple.
pub open spec fn external_gpu(g: GpuRecordView) -> Option<GpuView> {
    let name = or_empty(g.model);
    let vram = text::lowercase(or_text(g.vram, "0"@));
    let bus = or_text(g.bus, "unknown"@);
    if text::starts(name, "Apple"@) {
        None
    } else {
        Some(
            GpuView {
                name,
                vendor: vendor_of(text::lowercase(or_empty(g.vendor))),
                vram: text::nth_word(vram, 0),
                vram_in_mb: text::has(vram, "mb"@),
                bus: bus_kind(bus, text::lowercase(bus)),
                pci_slot: or_empty(g.slot),
                device_id: or_empty(g.device_id),
            },
        )
    }
}

/// The graphics processor that is described, unless it is one of Apple.
pub fn describe_gpu(g: GpuRecord) -> (r: Option<Gpu>)
    ensures
        r.deep_view() == external_gpu(g.deep_view()),
{
    let name: String = or_nothing(g.model);
    if text::starts_with(&name, "Apple") {
        return None;
    }
    let vendor: String = text::to_lowercase(&or_nothing(g.vendor));
    let vram: String = match g.vram {
        Some(v) => text::to_lowercase(&v),
        None => text::to_lowercase("0"),
    };
    let bus: String = match g.bus {
        Some(b) => b,
        None => text::own("unknown"),
    };
    let bus_lower: String = text::to_lowercase(&bus);
    Some(
        Gpu {
            name,
            vendor: gpu_vendor(&vendor),
            vram: text::word(&vram, 0),
            vram_in_mb: text::contains(&vram, "mb"),
            bus: gpu_bus(&bus, &bus_lower),
            pci_slot: or_nothing(g.slot),
            device_id: or_nothing(g.device_id),
        },
    )
}

// ---------------------------------------------------------------------------
// Software
// ---------------------------------------------------------------------------

/// The versions of the software on a node.
#[derive(Debug, Clone)]
pub struct RuntimeInfo {
    pub python_version: Option<String>,
    pub mlx_version: Option<String>,
    pub mlx_device: Option<String>,
    pub vllm_version: Option<String>,
    pub macos_version: Option<String>,
}

/// The line with the number `n` of an output without the white space at its
/// ends.
pub open spec fn output_line(output: Seq<char>, n: int) -> Option<Seq<char>> {
    let ls = text::lines_of(text::trimmed(output));
    if 0 <= n < ls.len() {
        Some(ls[n])
    } else {
        None
    }
}

/// The first two lines of an output, which hold a version and a device.
pub fn version_and_device(output: &Option<String>) -> (r: (Option<String>, Option<String>))
    ensures
        output.deep_view() matches Some(out) ==> r.0.deep_view() == output_line(out, 0)
            && r.1.deep_view() == output_line(out, 1),
        output is None ==> r.0 is None && r.1 is None,
{
    match output {
        None => (None, None),
        Some(out) => {
            let ls: Vec<String> = text::lines(&text::trim(out));
            let a: Option<String> = if ls.len() > 0 {
                assert(ls.deep_view()[0] == ls@[0]@);
                Some(text::own(&ls[0]))
            } else {
                None
            };
            let b: Option<String> = if ls.len() > 1 {
                assert(ls.deep_view()[1] == ls@[1]@);
                Some(text::own(&ls[1]))
            } else {
                None
            };
            assert(ls.deep_view().len() == ls@.len());
            (a, b)
        },
    }
}

/// An output without the white space at its ends.
fn trim_opt(output: &Option<String>) -> (r: Option<String>)
    ensures
        r.deep_view() == (match output.deep_view() {
            Some(out) => Some(text::trimmed(out)),
            None => None,
        }),
{
    match output {
        Some(out) => Some(text::trim(out)),
        None => None,
    }
}

impl RuntimeInfo {
    /// The versions that the outputs of the probes give: of Python, of MLX
    /// with its device, of vLLM and of macOS.
    pub fn from_outputs(
        python: &Option<String>,
        mlx: &Option<String>,
        vllm: &Option<String>,
        macos: &Option<String>,
    ) -> (r: RuntimeInfo)
        ensures
            python.deep_view() matches Some(p) ==> r.python_version.deep_view() == Some(
                text::trimmed(p),
            ),
            python is None ==> r.python_version is None,
            mlx.deep_view() matches Some(m) ==> r.mlx_version.deep_view() == output_line(m, 0)
                && r.mlx_device.deep_view() == output_line(m, 1),
            mlx is None ==> r.mlx_version is None && r.mlx_device is None,
            vllm.deep_view() matches Some(v) ==> r.vllm_version.deep_view() == Some(
                text::trimmed(v),
            ),
            vllm is None ==> r.vllm_version is None,
            macos.deep_view() matches Some(m) ==> r.macos_version.deep_view() == Some(
                text::trimmed(m),
            ),
            macos is None ==> r.macos_version is None,
    {
        let (mlx_version, mlx_device) = version_and_device(mlx);
        RuntimeInfo {
            python_version: trim_opt(python),
            mlx_version,
            mlx_device,
            vllm_version: trim_opt(vllm),
            macos_version: trim_opt(macos),
        }
    }
}

// ---------------------------------------------------------------------------
// Laws of the hardware
// ---------------------------------------------------------------------------

/// The number of a port stands behind the word `Thunderbolt`; the bridge over
/// the ports is none.
pub proof fn port_number_is_read(front: Seq<char>, n: nat, line: Seq<char>)
    requires
        !front.contains('T'),
        !front.contains('B'),
        n <= 255,
    ensures
        port_number(front + "Thunderbolt "@ + text::dec(n)) == Some(n),
        text::has(line, "Bridge"@) ==> port_number(line) is None,
        !text::has(line, "Thunderbolt"@) ==> port_number(line) is None,
{
    let p = "Thunderbolt "@;
    let d = text::dec(n);
    let s = front + p + d;
    reveal_strlit("Thunderbolt ");
    reveal_strlit("Thunderbolt");
    reveal_strlit("Bridge");
    assert(p[0] == 'T');
    let at = front.len() as int;
    assert(s.subrange(at, at + "Thunderbolt"@.len()) =~= "Thunderbolt"@);
    assert(text::occurs_at(s, "Thunderbolt"@, at));
    text::digits_hold_no(n, 'B');
    text::digits_hold_no(n, 'T');
    assert(!s.contains('B')) by {
        if s.contains('B') {
            let i = choose|i: int| 0 <= i < s.len() && s[i] == 'B';
            if i < front.len() {
                assert(front[i] == 'B');
            } else if i >= front.len() + p.len() {
                assert(d[i - front.len() - p.len()] == 'B');
            } else {
                assert(p[i - front.len()] == 'B');
            }
        }
    }
    if text::has(s, "Bridge"@) {
        let i = choose|i: int| text::occurs_at(s, "Bridge"@, i);
        assert(s.subrange(i, i + "Bridge"@.len())[0] == 'B');
        assert(s[i] == 'B');
    }
    text::cut_at_first_text(front, p, d);
    text::cut_at_first_text(d, p, Seq::empty());
    assert(text::split_at_text(s, p) =~= seq![front, d]);
    text::decimal_reads_back(n);
    assert(text::is_digit(d[0]) && text::is_digit(d.last()));
    text::inner_text_comes_back(Seq::empty(), d, Seq::empty());
    assert(Seq::<char>::empty() + d + Seq::<char>::empty() =~= d);
    text::numeral_round_trip(n, 255);
}

/// The buses found are in order.
proof fn buses_are_ordered(lines: Seq<Seq<char>>, k: nat)
    ensures
        table::ordered(buses_in(lines, k)),
    decreases k,
{
    if k > 0 && k <= lines.len() {
        buses_are_ordered(lines, (k - 1) as nat);
        if let Some(n) = port_number(lines[k - 1]) {
            if k < lines.len() {
                if let Some(dev) = text::after_prefix(lines[k as int], "Device: "@) {
                    table::with_entry_sets(
                        buses_in(lines, (k - 1) as nat),
                        text::dec((n - 1) as nat),
                        text::trimmed(dev),
                    );
                }
            }
        }
    }
}

/// The bus of a port, which counts from zero where ports count from one, has
/// the interface of the line that follows the port.
pub proof fn bus_has_the_interface_of_its_port(lines: Seq<Seq<char>>, k: nat, n: nat, dev: Seq<char>)
    requires
        k + 1 < lines.len(),
        port_number(lines[k as int]) == Some(n + 1),
        lines[k as int + 1] == "Device: "@ + dev,
        dev.len() > 0,
        !text::is_space(dev[0]),
        !text::is_space(dev.last()),
    ensures
        table::lookup(buses_in(lines, k + 1), text::dec(n)) == Some(dev),
        forall|other: Seq<char>|
            other != text::dec(n) ==> #[trigger] table::lookup(buses_in(lines, k + 1), other)
                == table::lookup(buses_in(lines, k), other),
{
    buses_are_ordered(lines, k);
    let s = "Device: "@ + dev;
    assert(s.take("Device: "@.len() as int) =~= "Device: "@);
    assert(s.skip("Device: "@.len() as int) =~= dev);
    text::inner_text_comes_back(Seq::empty(), dev, Seq::empty());
    assert(Seq::<char>::empty() + dev + Seq::<char>::empty() =~= dev);
    table::with_entry_sets(buses_in(lines, k), text::dec(n), dev);
}

/// Every device of this vendor among some items is found, and one of another
/// vendor or without a model is not.
pub proof fn every_device_is_found(items: Seq<serde_json::Value>, depth: nat, k: nat, i: int)
    requires
        k <= items.len(),
        0 <= i < k,
        apple_device(items[i]) is Some,
    ensures
        apple_devices(items, depth, k).contains(apple_device(items[i])->0),
    decreases k,
{
    let d = apple_device(items[i])->0;
    let rest = apple_devices(items, depth, (k - 1) as nat);
    let now = apple_devices(items, depth, k);
    if i < k - 1 {
        every_device_is_found(items, depth, (k - 1) as nat, i);
        let m = choose|m: int| 0 <= m < rest.len() && rest[m] == d;
        assert(now[m] == d);
    } else {
        assert(now[rest.len() as int] == d);
    }
}

/// A device that hangs at another is found too.
pub proof fn device_behind_another_is_found(items: Seq<serde_json::Value>, depth: nat, k: nat, i: int, sub: Seq<serde_json::Value>, j: int)
    requires
        k <= items.len(),
        0 <= i < k,
        json::items_at(items[i], "_items"@) == Some(sub),
        json::json_depth(items[i]) < depth,
        0 <= j < sub.len(),
        apple_device(sub[j]) is Some,
    ensures
        apple_devices(items, depth, k).contains(apple_device(sub[j])->0),
    decreases k,
{
    let d = apple_device(sub[j])->0;
    let rest = apple_devices(items, depth, (k - 1) as nat);
    let now = apple_devices(items, depth, k);
    if i < k - 1 {
        device_behind_another_is_found(items, depth, (k - 1) as nat, i, sub, j);
        let m = choose|m: int| 0 <= m < rest.len() && rest[m] == d;
        assert(now[m] == d);
    } else {
        let below = apple_devices(sub, json::json_depth(items[i]), sub.len());
        every_device_is_found(sub, json::json_depth(items[i]), sub.len(), j);
        let m = choose|m: int| 0 <= m < below.len() && below[m] == d;
        assert(now[now.len() - below.len() + m] == d);
    }
}

/// A bus is known by the number at the end of its name.
pub proof fn bus_is_known_by_its_number(n: nat, other: Seq<char>)
    requires
        n <= 255,
    ensures
        bus_number(Some("thunderboltusb4_bus_"@ + text::dec(n))) == Some(n),
        !text::starts(other, "thunderboltusb4_bus_"@) ==> bus_number(Some(other)) is None,
        bus_number(None) is None,
{
    let p = "thunderboltusb4_bus_"@;
    let s = p + text::dec(n);
    assert(s.take(p.len() as int) =~= p);
    assert(s.skip(p.len() as int) =~= text::dec(n));
    text::numeral_round_trip(n, 255);
}

/// The version of a driver stands behind the first bracket, up to a slash.
pub proof fn version_stands_in_brackets(front: Seq<char>, version: Seq<char>, build: Seq<char>, back: Seq<char>)
    requires
        !front.contains('('),
        !version.contains('(') && !version.contains(')') && !version.contains('/'),
        !build.contains('(') && !build.contains(')'),
        !back.contains('('),
        version.len() > 0,
        !text::is_space(version[0]),
        !text::is_space(version.last()),
    ensures
        driver_version(front + seq!['('] + (version + seq!['/'] + build + seq![')'] + back))
            == Some(version),
        driver_version(front) is None,
{
    let inner = version + seq!['/'] + build;
    let rest = inner + seq![')'] + back;
    assert(!inner.contains(')')) by {
        if inner.contains(')') {
            let i = choose|i: int| 0 <= i < inner.len() && inner[i] == ')';
            if i < version.len() {
                assert(version[i] == ')');
            } else if i > version.len() {
                assert(build[i - version.len() - 1] == ')');
            }
        }
    }
    assert(!rest.contains('(')) by {
        if rest.contains('(') {
            let i = choose|i: int| 0 <= i < rest.len() && rest[i] == '(';
            if i < version.len() {
                assert(version[i] == '(');
            } else if i > version.len() && i < inner.len() {
                assert(build[i - version.len() - 1] == '(');
            } else if i > inner.len() {
                assert(back[i - inner.len() - 1] == '(');
            }
        }
    }
    text::second_piece(front, '(', rest);
    text::split_at_first(inner, ')', back);
    text::split_at_first(version, '/', build);
    text::inner_text_comes_back(Seq::empty(), version, Seq::empty());
    assert(Seq::<char>::empty() + version + Seq::<char>::empty() =~= version);
}

/// A driver is active where its line says both words, and only installed where
/// it says neither.
pub proof fn driver_state_is_read(line: Seq<char>)
    ensures
        driver_in(line).installed,
        driver_in(line).status == "activated"@ <==> text::has(line, "activated"@) && text::has(
            line,
            "enabled"@,
        ),
        driver_in(line).status == "installed"@ <==> !text::has(line, "activated"@),
        driver_in(line).version == driver_version(line),
{
    reveal_strlit("activated");
    reveal_strlit("activated_disabled");
    reveal_strlit("installed");
    assert("activated"@.len() == 9 && "activated_disabled"@.len() == 18);
    assert("activated"@[0] == 'a' && "activated_disabled"@[0] == 'a' && "installed"@[0] == 'i');
}

/// The driver is that of the first line that names it.
pub proof fn first_driver_is_found(front: Seq<Seq<char>>, line: Seq<char>, back: Seq<Seq<char>>)
    requires
        forall|i: int| 0 <= i < front.len() ==> !driver_line(#[trigger] front[i]),
        driver_line(line),
    ensures
        driver_among(front + seq![line] + back) == driver_in(line),
        !driver_among(front).installed,
    decreases front.len(),
{
    let all = front + seq![line] + back;
    if front.len() > 0 {
        let rest = front.drop_first();
        assert(all[0] == front[0]);
        assert(all.drop_first() =~= rest + seq![line] + back);
        assert forall|i: int| 0 <= i < rest.len() implies !driver_line(#[trigger] rest[i]) by {
            assert(rest[i] == front[i + 1]);
        }
        first_driver_is_found(rest, line, back);
    } else {
        assert(all[0] == line);
    }
}

/// A vendor and a bus are known by the words in their names.
pub proof fn words_tell_vendor_and_bus(lower: Seq<char>, bus: Seq<char>)
    ensures
        text::has(lower, "nvidia"@) ==> vendor_of(lower) == "nvidia"@,
        !text::has(lower, "nvidia"@) && text::has(lower, "amd"@) ==> vendor_of(lower) == "amd"@,
        !text::has(lower, "nvidia"@) && text::has(lower, "ati"@) ==> vendor_of(lower) == "amd"@,
        vendor_of(lower) == "nvidia"@ || vendor_of(lower) == "amd"@ || vendor_of(lower)
            == "intel"@ || vendor_of(lower) == "unknown"@,
        text::has(lower, "thunderbolt"@) ==> bus_kind(bus, lower) == "thunderbolt"@,
        !text::has(lower, "thunderbolt"@) && text::has(lower, "usb"@) ==> bus_kind(bus, lower)
            == "usb4"@,
        !text::has(lower, "thunderbolt"@) && !text::has(lower, "usb"@) && text::has(lower, "pci"@)
            ==> bus_kind(bus, lower) == "pcie"@,
        !text::has(lower, "thunderbolt"@) && !text::has(lower, "usb"@) && !text::has(lower, "pci"@)
            ==> bus_kind(bus, lower) == bus,
{
}

/// The processors of the machine itself are none of the external ones; of every
/// other one the name, the slot and the number are shown.
pub proof fn other_processors_are_shown(g: GpuRecordView, name: Seq<char>)
    ensures
        g.model == Some("Apple"@ + name) ==> external_gpu(g) is None,
        g.model == Some(name) && !text::starts(name, "Apple"@) ==> (match external_gpu(g) {
            Some(e) => e.name == name && e.pci_slot == or_empty(g.slot) && e.device_id == or_empty(
                g.device_id,
            ),
            None => false,
        }),
{
    let s = "Apple"@ + name;
    assert(s.take("Apple"@.len() as int) =~= "Apple"@);
}

/// The first line of an output is its line zero, and the second its line one.
pub proof fn lines_are_counted_from_zero(version: Seq<char>, device: Seq<char>)
    requires
        version.len() > 0 && device.len() > 0,
        !text::is_space(version[0]),
        !version.contains('\n') && !device.contains('\n'),
        version.last() != '\r',
        !text::is_space(device.last()),
    ensures
        output_line(version + seq!['\n'] + device, 0) == Some(version),
        output_line(version + seq!['\n'] + device, 1) == Some(device),
        output_line(version + seq!['\n'] + device, 2) is None,
{
    let s = version + seq!['\n'] + device;
    assert(s[0] == version[0]);
    assert(s.last() == device.last());
    text::inner_text_comes_back(Seq::empty(), s, Seq::empty());
    assert(Seq::<char>::empty() + s + Seq::<char>::empty() =~= s);
    text::lines_come_one_by_one(version, device);
    text::lines_come_one_by_one(device, Seq::empty());
    assert(text::lines_of(s) =~= seq![version, device]);
}

/// What is told of a bus is read from the members of their names, and the bus
/// at its other end from its first item.
pub proof fn bus_is_read(bus: serde_json::Value, tag: serde_json::Value)
    requires
        json::json_member(bus, "receptacle_1_tag"@) == Some(tag),
    ensures
        ({
            let b = bus_in(bus);
            &&& b.receptacle == json::text_at(tag, "receptacle_id_key"@)
            &&& b.speed == json::text_at(tag, "current_speed_key"@)
            &&& b.status == json::text_at(tag, "receptacle_status_key"@)
            &&& b.domain_uuid == json::text_at(bus, "domain_uuid_key"@)
            &&& b.switch_uid == json::text_at(bus, "switch_uid_key"@)
            &&& b.name == json::text_at(bus, "_name"@)
            &&& json::items_at(bus, "_items"@) is None ==> b.peer_domain_uuid is None
                && b.devices.len() == 0
            &&& json::items_at(bus, "_items"@) matches Some(items) ==> (items.len() > 0
                ==> b.peer_domain_uuid == json::text_at(items[0], "domain_uuid_key"@))
        }),
{
}

/// What is told of a processor is read from the members of their names, of the
/// vendor and the memory from either of two.
pub proof fn processor_is_read(v: serde_json::Value)
    ensures
        gpu_in(v).model == json::text_at(v, "sppci_model"@),
        gpu_in(v).bus == json::text_at(v, "sppci_bus"@),
        gpu_in(v).slot == json::text_at(v, "sppci_slot_name"@),
        gpu_in(v).device_id == json::text_at(v, "sppci_device_id"@),
        json::text_at(v, "sppci_vendor"@) is Some ==> gpu_in(v).vendor == json::text_at(
            v,
            "sppci_vendor"@,
        ),
        json::json_member(v, "sppci_vendor"@) is None ==> gpu_in(v).vendor == json::text_at(
            v,
            "spdisplays_vendor"@,
        ),
        json::text_at(v, "sppci_vram"@) is Some ==> gpu_in(v).vram == json::text_at(
            v,
            "sppci_vram"@,
        ),
        json::json_member(v, "sppci_vram"@) is None ==> gpu_in(v).vram == json::text_at(
            v,
            "_spdisplays_vram"@,
        ),
{
}

} // verus!
