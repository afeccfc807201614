//! What a node announces of itself in the local network.

use crate::admin;
use crate::text;
use vstd::prelude::*;
use vstd::string::*;

verus! {

/// The port of the model server.
pub const MLX_PORT: u16 = 19080;

/// The optional services of a node that answer.
#[derive(Debug, Clone, Copy, PartialEq, Eq, Structural)]
pub struct TxtSnapshot {
    pub hermes_reachable: bool,
    pub mlx_reachable: bool,
}

/// The name under which a node is announced.
pub fn instance_name(hostname: &str) -> (r: String)
    ensures
        r@ == "r1o-"@ + hostname@,
{
    text::glue("r1o-", hostname)
}

/// The host name that is announced. It is that of the service, and not that
/// of the system, which would take another name on a collision.
pub fn announced_host(instance: &str) -> (r: String)
    ensures
        r@ == instance@ + ".local."@,
{
    text::glue(instance, ".local.")
}

/// The records that are announced: those of the services that answer last.
pub open spec fn records(
    hostname: Seq<char>,
    port: nat,
    version: Seq<char>,
    snap: TxtSnapshot,
) -> Seq<(Seq<char>, Seq<char>)> {
    let base = seq![("asmi"@, text::dec(port)), ("host"@, hostname), ("version"@, version)];
    let with_hermes = if snap.hermes_reachable {
        base.push(("hermes"@, text::dec(admin::HERMES_PORT as nat)))
    } else {
        base
    };
    if snap.mlx_reachable {
        with_hermes.push(("mlx"@, text::dec(MLX_PORT as nat)))
    } else {
        with_hermes
    }
}

/// The records that are announced.
pub fn txt_records(hostname: &str, port: u16, version: &str, snap: &TxtSnapshot) -> (r: Vec<
    (String, String),
>)
    ensures
        r.deep_view() == records(hostname@, port as nat, version@, *snap),
{
    let mut v: Vec<(String, String)> = Vec::new();
    text::push_item(&mut v, (text::own("asmi"), text::decimal(port as u64)));
    text::push_item(&mut v, (text::own("host"), text::own(hostname)));
    text::push_item(&mut v, (text::own("version"), text::own(version)));
    assert(v.deep_view() =~= seq![
        ("asmi"@, text::dec(port as nat)),
        ("host"@, hostname@),
        ("version"@, version@),
    ]);
    if snap.hermes_reachable {
        text::push_item(&mut v, (text::own("hermes"), text::decimal(admin::HERMES_PORT as u64)));
    }
    if snap.mlx_reachable {
        text::push_item(&mut v, (text::own("mlx"), text::decimal(MLX_PORT as u64)));
    }
    v
}

/// Whether a node is announced anew: only where the services that answer have
/// changed.
pub fn announces_anew(before: &TxtSnapshot, now: &TxtSnapshot) -> (r: bool)
    ensures
        r == (before != now),
{
    *before != *now
}

/// The records of a node change where the services that answer do, and only
/// there.
pub proof fn records_tell_services(
    hostname: Seq<char>,
    port: nat,
    version: Seq<char>,
    a: TxtSnapshot,
    b: TxtSnapshot,
)
    ensures
        records(hostname, port, version, a) == records(hostname, port, version, b) <==> a == b,
{
    reveal_strlit("hermes");
    reveal_strlit("mlx");
    assert("hermes"@.len() != "mlx"@.len());
    let ra = records(hostname, port, version, a);
    let rb = records(hostname, port, version, b);
    if ra == rb && a != b {
        assert(ra.len() == 3 + (if a.hermes_reachable {
            1int
        } else {
            0int
        }) + (if a.mlx_reachable {
            1int
        } else {
            0int
        }));
        if ra.len() == 4 {
            assert(ra[3].0 == rb[3].0);
        }
    }
}

/// The records tell the port, the host and the version that were given, and
/// each service that can be reached under its own name.
pub proof fn records_tell_the_node(hostname: Seq<char>, port: nat, version: Seq<char>, snap: TxtSnapshot)
    ensures
        ({
            let r = records(hostname, port, version, snap);
            &&& r[0].0 == "asmi"@ && r[0].1 == text::dec(port)
            &&& r[1].0 == "host"@ && r[1].1 == hostname
            &&& r[2].0 == "version"@ && r[2].1 == version
            &&& snap.hermes_reachable ==> r[3].0 == "hermes"@
            &&& snap.mlx_reachable ==> r.last().0 == "mlx"@
            &&& r.len() == 3 + (if snap.hermes_reachable {
                1int
            } else {
                0
            }) + (if snap.mlx_reachable {
                1int
            } else {
                0
            })
        }),
{
}

} // verus!
