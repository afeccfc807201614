//! Watching links and power: the keys under which the system tells of a link,
//! what is said when one is lost, and the samples of the power meter.

use crate::text;
use vstd::prelude::*;
use vstd::string::*;

verus! {

/// The key under which the system tells of the link of an interface.
pub open spec fn key_of(iface: Seq<char>) -> Seq<char> {
    "State:/Network/Interface/"@ + iface + "/Link"@
}

/// The interface that a key is about.
pub open spec fn iface_of(key: Seq<char>) -> Seq<char> {
    match text::after_prefix(key, "State:/Network/Interface/"@) {
        Some(rest) => if text::ends(rest, "/Link"@) {
            rest.take(rest.len() - "/Link"@.len())
        } else {
            "unknown"@
        },
        None => "unknown"@,
    }
}

/// The key under which the system tells of the link of an interface.
pub fn link_key(iface: &str) -> (r: String)
    ensures
        r@ == key_of(iface@),
{
    let mut s: String = text::glue("State:/Network/Interface/", iface);
    s.append("/Link");
    s
}

/// The interface that a key is about.
pub fn link_interface(key: &str) -> (r: String)
    ensures
        r@ == iface_of(key@),
{
    match text::strip_prefix(key, "State:/Network/Interface/") {
        Some(rest) => if text::ends_with(&rest, "/Link") {
            proof {
                reveal_strlit("/Link");
            }
            let v: Vec<char> = text::chars_of(&rest);
            let s: String = text::string_of(&v, 0, v.len() - 5);
            assert(s@ =~= rest@.take(rest@.len() - "/Link"@.len()));
            s
        } else {
            text::own("unknown")
        },
        None => text::own("unknown"),
    }
}

/// The key of an interface is about that interface.
pub proof fn key_names_interface(iface: Seq<char>)
    ensures
        iface_of(key_of(iface)) == iface,
{
    let p = "State:/Network/Interface/"@;
    let e = "/Link"@;
    let k = key_of(iface);
    assert(k.take(p.len() as int) =~= p);
    assert(k.skip(p.len() as int) =~= iface + e);
    let rest = iface + e;
    assert(rest.skip(rest.len() - e.len()) =~= e);
    assert(rest.take(rest.len() - e.len()) =~= iface);
}

/// What is told of a link.
#[derive(Debug)]
pub enum LinkEvent {
    Up { iface: String },
    /// The peers are checked at once.
    Down { iface: String },
}

/// What is told of the link that a key is about.
pub fn link_event(key: &str, active: bool) -> (r: LinkEvent)
    ensures
        active ==> (r matches LinkEvent::Up { iface } && iface@ == iface_of(key@)),
        !active ==> (r matches LinkEvent::Down { iface } && iface@ == iface_of(key@)),
{
    let iface: String = link_interface(key);
    if active {
        LinkEvent::Up { iface }
    } else {
        LinkEvent::Down { iface }
    }
}

/// The title of the alert when a link is lost.
pub fn alert_title(iface: &str) -> (r: String)
    ensures
        r@ == "RDMA link down: "@ + iface@,
{
    text::glue("RDMA link down: ", iface)
}

/// The text of the alert when a link is lost.
pub fn alert_body(iface: &str) -> (r: String)
    ensures
        r@ == "Thunderbolt interface "@ + iface@
            + " lost link. Heartbeat probe triggered."@,
{
    let mut s: String = text::glue("Thunderbolt interface ", iface);
    s.append(" lost link. Heartbeat probe triggered.");
    s
}

/// The lines of the sample that the power meter is writing.
pub struct SampleBuffer {
    pub pending: String,
}

/// The line ends a sample.
pub open spec fn ends_sample(line: Seq<char>) -> bool {
    text::has(line, "Combined Power"@)
}

impl SampleBuffer {
    /// No lines.
    pub fn new() -> (r: SampleBuffer)
        ensures
            r.pending@.len() == 0,
    {
        SampleBuffer { pending: String::new() }
    }

    /// Takes in a line. Where it ends a sample, the sample is given and the
    /// next begins.
    pub fn push_line(&mut self, line: &str) -> (r: Option<String>)
        ensures
            ends_sample(line@) ==> r.deep_view() == Some(old(self).pending@ + line@ + "\n"@)
                && final(self).pending@.len() == 0,
            !ends_sample(line@) ==> r is None && final(self).pending@ == old(self).pending@
                + line@ + "\n"@,
    {
        let mut all: String = text::glue(&self.pending, line);
        all.append("\n");
        if text::contains(line, "Combined Power") {
            self.pending = String::new();
            Some(all)
        } else {
            self.pending = all;
            None
        }
    }
}

/// A sample ends with the line that tells the combined power.
pub proof fn sample_ends_with_its_power(front: Seq<char>, back: Seq<char>)
    ensures
        ends_sample(front + "Combined Power"@ + back),
{
    let p = "Combined Power"@;
    let s = front + p + back;
    let i = front.len() as int;
    assert(s.subrange(i, i + p.len()) =~= p);
    assert(text::occurs_at(s, p, i));
}

} // verus!
