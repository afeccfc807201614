//! Taking the Thunderbolt bridge apart and putting it together again.

use crate::autosetup;
use crate::scan;
use crate::scan::LineReader;
use crate::text;
use vstd::prelude::*;
use vstd::string::*;

verus! {

/// A command to run, and the name under which its outcome is noted.
pub struct Step {
    pub name: String,
    pub argv: Vec<String>,
    /// The step is noted as done whatever came of its command.
    pub noted_done: bool,
}

/// The texts of a step.
pub struct StepView {
    pub name: Seq<char>,
    pub argv: Seq<Seq<char>>,
    pub noted_done: bool,
}

impl DeepView for Step {
    type V = StepView;

    open spec fn deep_view(&self) -> StepView {
        StepView {
            name: self.name@,
            argv: self.argv.deep_view(),
            noted_done: self.noted_done,
        }
    }
}

/// The file that holds the network settings of the system.
pub open spec fn settings_file() -> Seq<char> {
    "/Library/Preferences/SystemConfiguration/preferences.plist"@
}

/// What is to be done about the bridge.
pub enum Removal {
    /// There is no bridge.
    Gone,
    /// The bridge has no members.
    Empty,
    /// These members are to be freed.
    Free(Vec<String>),
}

/// What is to be done about the bridge, given the output of
/// `ifconfig bridge0`, if that succeeds.
pub fn plan_removal(ifconfig: &Option<String>) -> (r: Removal)
    ensures
        match ifconfig.deep_view() {
            None => r is Gone,
            Some(out) => if autosetup::members_in(text::lines_of(out)).len() == 0 {
                r is Empty
            } else {
                r matches Removal::Free(m) && m.deep_view() == autosetup::members_in(
                    text::lines_of(out),
                )
            },
        },
{
    match ifconfig {
        None => Removal::Gone,
        Some(out) => {
            let m: Vec<String> = autosetup::bridge_members(out);
            assert(m.deep_view().len() == m@.len());
            if m.len() == 0 {
                Removal::Empty
            } else {
                Removal::Free(m)
            }
        },
    }
}

impl Removal {
    /// What is said where nothing is to be done.
    pub fn message(&self) -> (r: Option<String>)
        ensures
            r.deep_view() == (match self {
                Removal::Gone => Some("No bridge0 found — nothing to do"@),
                Removal::Empty => Some("bridge0 exists but has no member interfaces"@),
                Removal::Free(_) => None,
            }),
    {
        match self {
            Removal::Gone => Some(text::own("No bridge0 found — nothing to do")),
            Removal::Empty => Some(text::own("bridge0 exists but has no member interfaces")),
            Removal::Free(_) => None,
        }
    }
}

/// The name of the network service of a freed interface.
pub open spec fn service_name(iface: Seq<char>) -> Seq<char> {
    "r1o TB "@ + iface
}

/// The step that removes the bridge from the settings.
pub open spec fn remove_step() -> StepView {
    StepView {
        name: "remove_plist"@,
        argv: seq![
            "sudo"@,
            "/usr/libexec/PlistBuddy"@,
            "-c"@,
            "Delete :VirtualNetworkInterfaces:Bridge:bridge0"@,
            settings_file(),
        ],
        noted_done: false,
    }
}

/// The step that makes a network service for a freed interface.
pub open spec fn service_step(iface: Seq<char>) -> StepView {
    StepView {
        name: "create_service_"@ + iface,
        argv: seq![
            "sudo"@,
            "networksetup"@,
            "-createnetworkservice"@,
            service_name(iface),
            iface,
        ],
        noted_done: false,
    }
}

/// The step that has the settings read again.
pub open spec fn restart_step() -> StepView {
    StepView {
        name: "restart_configd"@,
        argv: seq!["sudo"@, "killall"@, "configd"@],
        noted_done: true,
    }
}

/// The step that waits for addresses.
pub open spec fn wait_step() -> StepView {
    StepView {
        name: "wait_ipv4ll"@,
        argv: seq!["sudo"@, "ipconfig"@, "waitall"@],
        noted_done: true,
    }
}

/// The steps that take the bridge apart.
pub open spec fn removal_steps(members: Seq<Seq<char>>) -> Seq<StepView> {
    seq![remove_step()] + members.map_values(|m: Seq<char>| service_step(m)) + seq![
        restart_step(),
        wait_step(),
    ]
}

/// A list of five texts.
fn five(a: &str, b: &str, c: &str, d: &str, e: &str) -> (r: Vec<String>)
    ensures
        r.deep_view() == seq![a@, b@, c@, d@, e@],
{
    let mut v: Vec<String> = three(a, b, c);
    text::push_str(&mut v, d);
    text::push_str(&mut v, e);
    assert(v.deep_view() =~= seq![a@, b@, c@, d@, e@]);
    v
}

/// A list of three texts.
fn three(a: &str, b: &str, c: &str) -> (r: Vec<String>)
    ensures
        r.deep_view() == seq![a@, b@, c@],
{
    let mut v: Vec<String> = Vec::new();
    text::push_str(&mut v, a);
    text::push_str(&mut v, b);
    text::push_str(&mut v, c);
    assert(v.deep_view() =~= seq![a@, b@, c@]);
    v
}

/// The steps that take the bridge apart: it goes from the settings, each of
/// its members gets a network service, and the settings are read again.
pub fn plan_steps(members: &Vec<String>) -> (r: Vec<Step>)
    ensures
        r.deep_view() == removal_steps(members.deep_view()),
{
    let ghost want = members.deep_view().map_values(|m: Seq<char>| service_step(m));
    let mut out: Vec<Step> = Vec::new();
    text::push_item(
        &mut out,
        Step {
            name: text::own("remove_plist"),
            argv: five(
                "sudo",
                "/usr/libexec/PlistBuddy",
                "-c",
                "Delete :VirtualNetworkInterfaces:Bridge:bridge0",
                "/Library/Preferences/SystemConfiguration/preferences.plist",
            ),
            noted_done: false,
        },
    );
    assert(out.deep_view() =~= seq![remove_step()] + want.take(0));
    let mut i: usize = 0;
    while i < members.len()
        invariant
            i <= members@.len(),
            want == members.deep_view().map_values(|m: Seq<char>| service_step(m)),
            out.deep_view() == seq![remove_step()] + want.take(i as int),
        decreases members@.len() - i,
    {
        let svc: String = text::glue("r1o TB ", &members[i]);
        let step = Step {
            name: text::glue("create_service_", &members[i]),
            argv: five("sudo", "networksetup", "-createnetworkservice", &svc, &members[i]),
            noted_done: false,
        };
        assert(step.deep_view() == want[i as int]);
        text::push_item(&mut out, step);
        i = i + 1;
        assert(out.deep_view() =~= seq![remove_step()] + want.take(i as int));
    }
    assert(want.take(i as int) =~= want);
    text::push_item(
        &mut out,
        Step {
            name: text::own("restart_configd"),
            argv: three("sudo", "killall", "configd"),
            noted_done: true,
        },
    );
    text::push_item(
        &mut out,
        Step {
            name: text::own("wait_ipv4ll"),
            argv: three("sudo", "ipconfig", "waitall"),
            noted_done: true,
        },
    );
    assert(out.deep_view() =~= removal_steps(members.deep_view()));
    out
}

/// Whether a step is noted as done.
pub fn step_done(step: &Step, succeeded: bool) -> (r: bool)
    ensures
        r == (step.noted_done || succeeded),
{
    step.noted_done || succeeded
}

/// Reads the link-local addresses from `ifconfig`.
pub struct LinkLocalIps;

impl LineReader for LinkLocalIps {
    type Item = String;

    open spec fn item(&self, line: Seq<char>) -> Option<Seq<char>> {
        if text::has(line, "inet 169.254"@) {
            text::nth_word(line, 1)
        } else {
            None
        }
    }

    fn read(&self, line: &str) -> (r: Option<String>) {
        if text::contains(line, "inet 169.254") {
            text::word(line, 1)
        } else {
            None
        }
    }
}

/// The link-local addresses of an interface in the output of `ifconfig`.
pub fn new_ips(ifconfig: &str) -> (r: Vec<String>)
    ensures
        r.deep_view() == scan::items_in(LinkLocalIps, text::lines_of(ifconfig@)),
{
    scan::read_lines(&LinkLocalIps, ifconfig)
}

/// How the removal went: well where the bridge is gone, else in part.
pub fn removal_status(gone: bool) -> (r: String)
    ensures
        r@ == (if gone {
            "ok"@
        } else {
            "partial"@
        }),
{
    if gone {
        text::own("ok")
    } else {
        text::own("partial")
    }
}

/// Reads the interfaces whose network services were made for the removal.
pub struct FreedServices;

impl LineReader for FreedServices {
    type Item = String;

    open spec fn item(&self, line: Seq<char>) -> Option<Seq<char>> {
        text::after_prefix(line, "r1o TB "@)
    }

    fn read(&self, line: &str) -> (r: Option<String>) {
        text::strip_prefix(line, "r1o TB ")
    }
}

/// The interfaces to return to the bridge, given the output of
/// `networksetup -listallnetworkservices`.
pub fn freed_interfaces(services: &str) -> (r: Vec<String>)
    ensures
        r.deep_view() == scan::items_in(FreedServices, text::lines_of(services@)),
{
    scan::read_lines(&FreedServices, services)
}

/// The command that changes the settings.
pub open spec fn edit_command(edit: Seq<char>) -> Seq<Seq<char>> {
    seq!["sudo"@, "/usr/libexec/PlistBuddy"@, "-c"@, edit, settings_file()]
}

/// The commands that put the bridge together again: it goes back into the
/// settings with its members, their network services go, and the settings are
/// read again.
pub open spec fn restore_commands(ifaces: Seq<Seq<char>>) -> Seq<Seq<Seq<char>>> {
    seq![
        edit_command(
            "Add :VirtualNetworkInterfaces:Bridge:bridge0:Options:__AUTO__ string thunderbolt-bridge"@,
        ),
        edit_command("Add :VirtualNetworkInterfaces:Bridge:bridge0:Interfaces array"@),
    ] + ifaces.map_values(
        |i: Seq<char>|
            edit_command(
                "Add :VirtualNetworkInterfaces:Bridge:bridge0:Interfaces: string "@ + i,
            ),
    ) + ifaces.map_values(
        |i: Seq<char>|
            seq!["sudo"@, "networksetup"@, "-removenetworkservice"@, service_name(i)],
    ) + seq![seq!["sudo"@, "killall"@, "configd"@]]
}

/// The command that changes the settings.
fn build_edit(edit: &str) -> (r: Vec<String>)
    ensures
        r.deep_view() == edit_command(edit@),
{
    five(
        "sudo",
        "/usr/libexec/PlistBuddy",
        "-c",
        edit,
        "/Library/Preferences/SystemConfiguration/preferences.plist",
    )
}

/// The commands that put the bridge together again.
pub fn plan_restore(ifaces: &Vec<String>) -> (r: Vec<Vec<String>>)
    ensures
        r.deep_view() == restore_commands(ifaces.deep_view()),
{
    let ghost adds = ifaces.deep_view().map_values(
        |i: Seq<char>|
            edit_command(
                "Add :VirtualNetworkInterfaces:Bridge:bridge0:Interfaces: string "@ + i,
            ),
    );
    let ghost removes = ifaces.deep_view().map_values(
        |i: Seq<char>|
            seq!["sudo"@, "networksetup"@, "-removenetworkservice"@, service_name(i)],
    );
    let mut out: Vec<Vec<String>> = Vec::new();
    text::push_item(
        &mut out,
        build_edit(
            "Add :VirtualNetworkInterfaces:Bridge:bridge0:Options:__AUTO__ string thunderbolt-bridge",
        ),
    );
    text::push_item(
        &mut out,
        build_edit("Add :VirtualNetworkInterfaces:Bridge:bridge0:Interfaces array"),
    );
    let ghost head = out.deep_view();
    let mut i: usize = 0;
    assert(out.deep_view() =~= head + adds.take(0));
    while i < ifaces.len()
        invariant
            i <= ifaces@.len(),
            adds == ifaces.deep_view().map_values(
                |i: Seq<char>|
                    edit_command(
                        "Add :VirtualNetworkInterfaces:Bridge:bridge0:Interfaces: string "@ + i,
                    ),
            ),
            out.deep_view() == head + adds.take(i as int),
        decreases ifaces@.len() - i,
    {
        let edit: String = text::glue(
            "Add :VirtualNetworkInterfaces:Bridge:bridge0:Interfaces: string ",
            &ifaces[i],
        );
        text::push_item(&mut out, build_edit(&edit));
        i = i + 1;
        assert(out.deep_view() =~= head + adds.take(i as int));
    }
    assert(adds.take(i as int) =~= adds);
    let mut k: usize = 0;
    assert(out.deep_view() =~= head + adds + removes.take(0));
    while k < ifaces.len()
        invariant
            k <= ifaces@.len(),
            removes == ifaces.deep_view().map_values(
                |i: Seq<char>|
                    seq!["sudo"@, "networksetup"@, "-removenetworkservice"@, service_name(i)],
            ),
            out.deep_view() == head + adds + removes.take(k as int),
        decreases ifaces@.len() - k,
    {
        let svc: String = text::glue("r1o TB ", &ifaces[k]);
        let mut cmd: Vec<String> = three("sudo", "networksetup", "-removenetworkservice");
        text::push_text(&mut cmd, svc);
        assert(cmd.deep_view() =~= removes[k as int]);
        text::push_item(&mut out, cmd);
        k = k + 1;
        assert(out.deep_view() =~= head + adds + removes.take(k as int));
    }
    assert(removes.take(k as int) =~= removes);
    text::push_item(&mut out, three("sudo", "killall", "configd"));
    assert(out.deep_view() =~= restore_commands(ifaces.deep_view()));
    out
}

/// What is said where the bridge is not put together again: it is there, or
/// nothing tells what it held.
pub fn restore_refusal(exists: bool, ifaces: &Vec<String>) -> (r: Option<String>)
    ensures
        r.deep_view() == (if exists {
            Some("bridge0 already exists — nothing to restore"@)
        } else if ifaces@.len() == 0 {
            Some("No r1o TB services found to restore"@)
        } else {
            None
        }),
{
    if exists {
        Some(text::own("bridge0 already exists — nothing to restore"))
    } else if ifaces.len() == 0 {
        Some(text::own("No r1o TB services found to restore"))
    } else {
        None
    }
}

/// The services that the removal makes for the members of the bridge name
/// those members again when it is put together.
pub proof fn restore_returns_members(members: Seq<Seq<char>>)
    ensures
        scan::items_in(FreedServices, members.map_values(|m: Seq<char>| service_name(m)))
            == members,
    decreases members.len(),
{
    let names = members.map_values(|m: Seq<char>| service_name(m));
    if members.len() > 0 {
        let front = members.drop_last();
        restore_returns_members(front);
        assert(names.drop_last() =~= front.map_values(|m: Seq<char>| service_name(m)));
        let p = "r1o TB "@;
        let m = members.last();
        assert(names.last() == p + m);
        assert((p + m).take(p.len() as int) =~= p);
        assert((p + m).skip(p.len() as int) =~= m);
        assert(FreedServices.item(names.last()) == Some(m));
        assert(front.push(m) =~= members);
    } else {
        assert(scan::items_in(FreedServices, names) =~= members);
    }
}

/// Removing the bridge first deletes it, then gives each member a service of
/// its own, in their order, and at last restarts what reads the settings.
pub proof fn every_member_gets_a_service(members: Seq<Seq<char>>, i: int)
    requires
        0 <= i < members.len(),
    ensures
        ({
            let steps = removal_steps(members);
            &&& steps.len() == members.len() + 3
            &&& steps[0].name == "remove_plist"@
            &&& steps[i + 1].name == "create_service_"@ + members[i]
            &&& steps[i + 1].argv.last() == members[i]
            &&& steps[i + 1].argv[steps[i + 1].argv.len() - 2] == service_name(members[i])
            &&& steps[members.len() as int + 1].name == "restart_configd"@
            &&& steps.last().name == "wait_ipv4ll"@
        }),
{
    let mid = members.map_values(|m: Seq<char>| service_step(m));
    assert(mid[i] == service_step(members[i]));
    assert(removal_steps(members)[i + 1] == mid[i]);
}

/// Restoring the bridge puts each interface into it and removes the service of
/// each, before what reads the settings is restarted.
pub proof fn every_interface_goes_back(ifaces: Seq<Seq<char>>, i: int)
    requires
        0 <= i < ifaces.len(),
    ensures
        ({
            let commands = restore_commands(ifaces);
            let n = ifaces.len() as int;
            &&& commands.len() == 2 * n + 3
            &&& text::ends(commands[2 + i][3], " string "@ + ifaces[i])
            &&& commands[2 + i].last() == settings_file()
            &&& commands[2 + n + i][2] == "-removenetworkservice"@
            &&& commands[2 + n + i].last() == service_name(ifaces[i])
            &&& commands.last().last() == "configd"@
        }),
{
    let put = |x: Seq<char>|
        edit_command("Add :VirtualNetworkInterfaces:Bridge:bridge0:Interfaces: string "@ + x);
    let away = |x: Seq<char>|
        seq!["sudo"@, "networksetup"@, "-removenetworkservice"@, service_name(x)];
    let a = ifaces.map_values(put);
    let b = ifaces.map_values(away);
    let n = ifaces.len() as int;
    let commands = restore_commands(ifaces);
    assert(a[i] == put(ifaces[i]));
    assert(b[i] == away(ifaces[i]));
    assert(commands[2 + i] == a[i]);
    assert(commands[2 + n + i] == b[i]);
    reveal_strlit("Add :VirtualNetworkInterfaces:Bridge:bridge0:Interfaces: string ");
    reveal_strlit(" string ");
    let e = "Add :VirtualNetworkInterfaces:Bridge:bridge0:Interfaces: string "@ + ifaces[i];
    let tail = " string "@ + ifaces[i];
    assert(e.skip(e.len() - tail.len()) =~= tail);
}

/// The service of an interface is known by the interface's name.
pub proof fn service_names_its_interface(iface: Seq<char>, other: Seq<char>)
    ensures
        FreedServices.item(service_name(iface)) == Some(iface),
        service_name(iface) == service_name(other) ==> iface == other,
{
    let s = service_name(iface);
    let t = service_name(other);
    let p = "r1o TB "@;
    assert(s.take(p.len() as int) =~= p);
    assert(s.skip(p.len() as int) =~= iface);
    assert(t.skip(p.len() as int) =~= other);
}

/// An address that a machine gave itself is the second word of its line.
pub proof fn own_address_is_read(line: Seq<char>, ip: Seq<char>, rest: Seq<Seq<char>>)
    requires
        text::words_of(line) == seq!["inet"@, ip] + rest,
    ensures
        text::has(line, "inet 169.254"@) ==> LinkLocalIps.item(line) == Some(ip),
        !text::has(line, "inet 169.254"@) ==> LinkLocalIps.item(line) is None,
{
    assert(text::words_of(line)[1] == ip);
}

} // verus!
