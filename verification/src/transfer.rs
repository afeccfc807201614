//! Transfers of models between nodes: what is asked for, how a transfer is
//! followed, which devices carry it, and how its result is compared.

use crate::json;
use crate::serve;
use crate::text;
use crate::topology::{LinkView, TopologyLink};
use vstd::prelude::*;
use vstd::string::*;

verus! {

// ---------------------------------------------------------------------------
// Requests
// ---------------------------------------------------------------------------

/// A request to transfer a model.
pub struct TransferRequest {
    /// The directory of the model.
    pub model_dir: String,
    pub peer: String,
    /// `send` or `recv`.
    pub direction: String,
}

/// A request to the other node of a transfer.
pub struct TransferAcceptRequest {
    pub model_dir: String,
    pub coordinator_ip: String,
    pub coordinator_port: i32,
    pub rank: i32,
    pub size: i32,
    /// The device of the other node.
    pub peer_device: Option<String>,
    /// The device of the coordinator.
    pub coordinator_device: Option<String>,
}

/// Whether a direction, in small letters, is one.
pub fn judge_direction(lower: &str) -> (r: Result<(), String>)
    ensures
        match r {
            Ok(_) => lower@ == "send"@ || lower@ == "recv"@,
            Err(e) => lower@ != "send"@ && lower@ != "recv"@ && e@
                == "direction must be 'send' or 'recv'"@,
        },
{
    if text::same(lower, "send") || text::same(lower, "recv") {
        Ok(())
    } else {
        Err(text::own("direction must be 'send' or 'recv'"))
    }
}

/// The direction of a request in small letters, if it is one.
pub fn check_direction(direction: &str) -> (r: Result<String, String>)
    ensures
        match r {
            Ok(d) => d@ == text::lowercase(direction@) && (d@ == "send"@ || d@ == "recv"@),
            Err(e) => text::lowercase(direction@) != "send"@ && text::lowercase(direction@)
                != "recv"@ && e@ == "direction must be 'send' or 'recv'"@,
        },
{
    let lower: String = text::to_lowercase(direction);
    match judge_direction(&lower) {
        Ok(_) => Ok(lower),
        Err(e) => Err(e),
    }
}

/// Whether a request to the other node has sense.
pub fn check_accept(req: &TransferAcceptRequest) -> (r: Result<(), String>)
    ensures
        match r {
            Ok(_) => req.model_dir@.len() > 0 && req.coordinator_ip@.len() > 0,
            Err(e) => (req.model_dir@.len() == 0 || req.coordinator_ip@.len() == 0) && e@
                == "model_dir and coordinator_ip required"@,
        },
{
    if req.model_dir.as_str().is_empty() || req.coordinator_ip.as_str().is_empty() {
        Err(text::own("model_dir and coordinator_ip required"))
    } else {
        Ok(())
    }
}

/// The request to the other node: it has rank one of two, and its device and
/// the one here change places.
pub fn accept_request(
    model_dir: &str,
    coordinator_ip: &str,
    coordinator_port: i32,
    devices: &Option<(String, String)>,
) -> (r: TransferAcceptRequest)
    ensures
        r.model_dir@ == model_dir@,
        r.coordinator_ip@ == coordinator_ip@,
        r.coordinator_port == coordinator_port,
        r.rank == 1,
        r.size == 2,
        r.peer_device.deep_view() == (match devices.deep_view() {
            Some(d) => Some(d.1),
            None => None,
        }),
        r.coordinator_device.deep_view() == (match devices.deep_view() {
            Some(d) => Some(d.0),
            None => None,
        }),
{
    let (coordinator_device, peer_device): (Option<String>, Option<String>) = match devices {
        Some(d) => (Some(text::own(&d.0)), Some(text::own(&d.1))),
        None => (None, None),
    };
    TransferAcceptRequest {
        model_dir: text::own(model_dir),
        coordinator_ip: text::own(coordinator_ip),
        coordinator_port,
        rank: 1,
        size: 2,
        peer_device,
        coordinator_device,
    }
}

/// A hexadecimal digit.
pub open spec fn hex_char(d: nat) -> char {
    if d < 10 {
        (48 + d) as char
    } else {
        (87 + d) as char
    }
}

/// A number in hexadecimal digits.
pub open spec fn hex_number(n: nat) -> Seq<char>
    decreases n,
{
    if n < 16 {
        seq![hex_char(n)]
    } else {
        hex_number(n / 16).push(hex_char(n % 16))
    }
}

/// A number in hexadecimal digits.
fn hexadecimal(n: u128) -> (r: String)
    ensures
        r@ == hex_number(n as nat),
    decreases n,
{
    let d: u8 = (n % 16) as u8;
    let c: char = if d < 10 {
        (48 + d) as char
    } else {
        (87 + d) as char
    };
    assert(c == hex_char((n % 16) as nat));
    if n < 16 {
        let mut s: String = String::new();
        s.push(c);
        assert(s@ =~= hex_number(n as nat));
        s
    } else {
        let mut s: String = hexadecimal(n / 16);
        s.push(c);
        s
    }
}

/// The name of a transfer that begins at that time.
pub fn transfer_id(now_ms: u128) -> (r: String)
    ensures
        r@ == "tx-"@ + hex_number(now_ms as nat),
{
    text::glue("tx-", &hexadecimal(now_ms))
}

/// The directory of models: below the home directory, or below `/tmp` where
/// there is none.
pub open spec fn models_root(home: Option<Seq<char>>) -> Seq<char> {
    match home {
        Some(h) => serve::path_below(h, "Models"@),
        None => "/tmp/Models"@,
    }
}

/// The directory of a model.
pub fn model_path(home: &Option<String>, model_dir: &str) -> (r: String)
    ensures
        r@ == serve::path_from(models_root(home.deep_view()), model_dir@),
{
    let root: String = match home {
        Some(h) => serve::path_join(h, "Models"),
        None => text::own("/tmp/Models"),
    };
    serve::resolve_path(&root, model_dir)
}

/// Whether a transfer can begin, given what the probe of the protection
/// domains said: zero is none left, and less is no RDMA.
pub fn judge_preflight(probe: i32) -> (r: Result<(), String>)
    ensures
        probe > 0 ==> r is Ok,
        probe == 0 ==> (r matches Err(e) && e@
            == "PD exhausted — reboot required (shutdown -h, wait 10s)"@),
        probe < 0 ==> (r matches Err(e) && e@
            == "RDMA not available on this host (no libibverbs)"@),
{
    if probe == 0 {
        Err(text::own("PD exhausted — reboot required (shutdown -h, wait 10s)"))
    } else if probe < 0 {
        Err(text::own("RDMA not available on this host (no libibverbs)"))
    } else {
        Ok(())
    }
}

// ---------------------------------------------------------------------------
// Following a transfer
// ---------------------------------------------------------------------------

/// The state of a transfer.
pub struct TransferState {
    pub id: String,
    pub peer: String,
    pub direction: String,
    pub model_dir: String,
    pub status: String,
    pub percent: u8,
    pub bytes_per_sec: u64,
    pub total_bytes: u64,
    pub bytes_sent: u64,
    pub error: Option<String>,
    pub started_at_epoch: u64,
    pub completed_at_epoch: Option<u64>,
    pub log: Vec<String>,
}

/// The state of a transfer, with its texts.
pub struct TransferView {
    pub id: Seq<char>,
    pub peer: Seq<char>,
    pub direction: Seq<char>,
    pub model_dir: Seq<char>,
    pub status: Seq<char>,
    pub percent: u8,
    pub bytes_per_sec: u64,
    pub total_bytes: u64,
    pub bytes_sent: u64,
    pub error: Option<Seq<char>>,
    pub started_at_epoch: u64,
    pub completed_at_epoch: Option<u64>,
    pub log: Seq<Seq<char>>,
}

impl DeepView for TransferState {
    type V = TransferView;

    open spec fn deep_view(&self) -> TransferView {
        TransferView {
            id: self.id@,
            peer: self.peer@,
            direction: self.direction@,
            model_dir: self.model_dir@,
            status: self.status@,
            percent: self.percent,
            bytes_per_sec: self.bytes_per_sec,
            total_bytes: self.total_bytes,
            bytes_sent: self.bytes_sent,
            error: self.error.deep_view(),
            started_at_epoch: self.started_at_epoch,
            completed_at_epoch: self.completed_at_epoch,
            log: self.log.deep_view(),
        }
    }
}

/// A log with one more line: beyond two hundred lines, the first hundred go.
pub open spec fn logged(log: Seq<Seq<char>>, line: Seq<char>) -> Seq<Seq<char>> {
    if log.len() + 1 > 200 {
        log.push(line).skip(100)
    } else {
        log.push(line)
    }
}

/// A log of no more than two hundred lines stays one, and ends with the line
/// that was added.
pub proof fn log_stays_short(log: Seq<Seq<char>>, line: Seq<char>)
    requires
        log.len() <= 200,
    ensures
        logged(log, line).len() <= 200,
        logged(log, line).len() > 0,
        logged(log, line).last() == line,
{
}

/// What an event of a transfer says.
#[derive(Debug)]
pub enum TransferEvent {
    Progress { percent: u64, bytes_per_sec: u64 },
    Stage { stage: Option<String> },
    Done { total_bytes: Option<u64> },
    Failed { error: Option<String> },
    Other,
}

/// What an event of a transfer says, with its texts.
pub enum EventView {
    Progress { percent: u64, bytes_per_sec: u64 },
    Stage { stage: Option<Seq<char>> },
    Done { total_bytes: Option<u64> },
    Failed { error: Option<Seq<char>> },
    Other,
}

impl DeepView for TransferEvent {
    type V = EventView;

    open spec fn deep_view(&self) -> EventView {
        match self {
            TransferEvent::Progress { percent, bytes_per_sec } => EventView::Progress {
                percent: *percent,
                bytes_per_sec: *bytes_per_sec,
            },
            TransferEvent::Stage { stage } => EventView::Stage { stage: stage.deep_view() },
            TransferEvent::Done { total_bytes } => EventView::Done { total_bytes: *total_bytes },
            TransferEvent::Failed { error } => EventView::Failed { error: error.deep_view() },
            TransferEvent::Other => EventView::Other,
        }
    }
}

/// A number, or zero.
pub open spec fn or_zero(n: Option<u64>) -> u64 {
    match n {
        Some(n) => n,
        None => 0,
    }
}

/// What a document says of a transfer.
pub open spec fn event_in(v: serde_json::Value) -> EventView {
    let kind = json::text_at(v, "type"@);
    if kind == Some("progress"@) {
        EventView::Progress {
            percent: or_zero(json::number_at(v, "percent"@)),
            bytes_per_sec: or_zero(json::number_at(v, "bytesPerSec"@)),
        }
    } else if kind == Some("stage"@) {
        EventView::Stage { stage: json::text_at(v, "stage"@) }
    } else if kind == Some("done"@) {
        EventView::Done { total_bytes: json::number_at(v, "totalBytes"@) }
    } else if kind == Some("error"@) {
        EventView::Failed { error: json::text_at(v, "error"@) }
    } else {
        EventView::Other
    }
}

/// A document as a line of an event stream.
pub open spec fn stream_line(doc: Seq<char>) -> Seq<char> {
    "data: "@ + doc + "\n\n"@
}

/// A document as a line of an event stream.
pub fn sse_line(doc: &str) -> (r: String)
    ensures
        r@ == stream_line(doc@),
{
    let mut s: String = text::glue("data: ", doc);
    s.append("\n\n");
    s
}

/// The document in a line of an event stream.
pub open spec fn streamed(line: Seq<char>) -> Option<Seq<char>> {
    match text::after_prefix(line, "data: "@) {
        Some(rest) => if text::ends(rest, "\n\n"@) {
            Some(rest.take(rest.len() - "\n\n"@.len()))
        } else {
            None
        },
        None => None,
    }
}

/// The document in a line of an event stream.
pub fn sse_document(line: &str) -> (r: Option<String>)
    ensures
        r.deep_view() == streamed(line@),
{
    match text::strip_prefix(line, "data: ") {
        Some(rest) => if text::ends_with(&rest, "\n\n") {
            proof {
                reveal_strlit("\n\n");
            }
            let v: Vec<char> = text::chars_of(&rest);
            let s: String = text::string_of(&v, 0, v.len() - 2);
            assert(s@ =~= rest@.take(rest@.len() - "\n\n"@.len()));
            Some(s)
        } else {
            None
        },
        None => None,
    }
}

/// A document is read back from its line.
pub proof fn document_is_read_back(doc: Seq<char>)
    ensures
        streamed(stream_line(doc)) == Some(doc),
{
    let p = "data: "@;
    let e = "\n\n"@;
    let l = stream_line(doc);
    assert(l.take(p.len() as int) =~= p);
    assert(l.skip(p.len() as int) =~= doc + e);
    let rest = doc + e;
    assert(rest.skip(rest.len() - e.len()) =~= e);
    assert(rest.take(rest.len() - e.len()) =~= doc);
}

/// What a line of the event stream says of a transfer, if it holds a JSON
/// document.
pub fn read_event(line: &str) -> (r: Option<TransferEvent>)
    ensures
        r.deep_view() == (match streamed(line@) {
            Some(doc) => match json::json_of(doc) {
                Some(v) => Some(event_in(v)),
                None => None,
            },
            None => None,
        }),
{
    proof {
        kinds_differ();
    }
    match sse_document(line) {
        None => None,
        Some(doc) => match json::parse(&doc) {
            None => None,
            Some(v) => {
                let kind: Option<String> = json::member_text(&v, "type");
                if text::same_opt(&kind, "progress") {
                    let percent: u64 = match json::member_number(&v, "percent") {
                        Some(n) => n,
                        None => 0,
                    };
                    let bytes_per_sec: u64 = match json::member_number(&v, "bytesPerSec") {
                        Some(n) => n,
                        None => 0,
                    };
                    Some(TransferEvent::Progress { percent, bytes_per_sec })
                } else if text::same_opt(&kind, "stage") {
                    Some(TransferEvent::Stage { stage: json::member_text(&v, "stage") })
                } else if text::same_opt(&kind, "done") {
                    Some(
                        TransferEvent::Done { total_bytes: json::member_number(&v, "totalBytes") },
                    )
                } else if text::same_opt(&kind, "error") {
                    Some(TransferEvent::Failed { error: json::member_text(&v, "error") })
                } else {
                    Some(TransferEvent::Other)
                }
            },
        },
    }
}

/// The kinds of events have different names.
proof fn kinds_differ()
    ensures
        "progress"@ != "stage"@,
        "progress"@ != "done"@,
        "progress"@ != "error"@,
        "stage"@ != "done"@,
        "stage"@ != "error"@,
        "done"@ != "error"@,
{
    reveal_strlit("progress");
    reveal_strlit("stage");
    reveal_strlit("done");
    reveal_strlit("error");
    assert("progress"@.len() == 8);
    assert("done"@.len() == 4);
    assert("stage"@[0] == 's');
    assert("error"@[0] == 'e');
    assert("stage"@.len() == 5);
    assert("error"@.len() == 5);
}

/// The transfer after an event.
pub open spec fn after_event(t: TransferView, e: EventView, now: u64) -> TransferView {
    match e {
        EventView::Progress { percent, bytes_per_sec } => TransferView {
            percent: percent as u8,
            bytes_per_sec,
            ..t
        },
        EventView::Stage { stage } => match stage {
            Some(s) => TransferView { status: s, ..t },
            None => t,
        },
        EventView::Done { total_bytes } => TransferView {
            status: "done"@,
            percent: 100,
            total_bytes: match total_bytes {
                Some(n) => n,
                None => t.bytes_sent,
            },
            completed_at_epoch: Some(now),
            ..t
        },
        EventView::Failed { error } => TransferView {
            status: "error"@,
            error,
            completed_at_epoch: Some(now),
            ..t
        },
        EventView::Other => t,
    }
}

/// The line that marks an event in the log.
pub open spec fn mark_line() -> Seq<char> {
    stream_line("{\"type\":\"stage\",\"stage\":\"_raw\",\"transport\":\"jaccl-rdma\"}"@)
}

/// The transfer has ended.
pub open spec fn over(status: Seq<char>) -> bool {
    status == "done"@ || status == "error"@
}

impl TransferState {
    /// A transfer that begins.
    pub fn started(req: &TransferRequest, id: String, direction: String, now: u64) -> (r:
        TransferState)
        ensures
            r.deep_view() == (TransferView {
                id: id@,
                peer: req.peer@,
                direction: direction@,
                model_dir: req.model_dir@,
                status: "started"@,
                percent: 0,
                bytes_per_sec: 0,
                total_bytes: 0,
                bytes_sent: 0,
                error: None,
                started_at_epoch: now,
                completed_at_epoch: None,
                log: Seq::empty(),
            }),
    {
        let r = TransferState {
            id,
            peer: text::own(&req.peer),
            direction,
            model_dir: text::own(&req.model_dir),
            status: text::own("started"),
            percent: 0,
            bytes_per_sec: 0,
            total_bytes: 0,
            bytes_sent: 0,
            error: None,
            started_at_epoch: now,
            completed_at_epoch: None,
            log: Vec::new(),
        };
        assert(r.log.deep_view() =~= Seq::<Seq<char>>::empty());
        r
    }

    /// Adds a line to the log.
    pub fn push_log(&mut self, line: String)
        ensures
            final(self).deep_view() == (TransferView {
                log: logged(old(self).deep_view().log, line@),
                ..old(self).deep_view()
            }),
    {
        let ghost before = self.log.deep_view();
        let ghost l = line@;
        text::push_text(&mut self.log, line);
        assert(self.log.deep_view().len() == self.log@.len());
        if self.log.len() > 200 {
            let n: usize = self.log.len();
            let kept: Vec<String> = crate::topology::copy_range(&self.log, 100, n);
            assert(kept.deep_view() =~= before.push(l).skip(100));
            self.log = kept;
        }
    }

    /// Takes in an event.
    pub fn apply(&mut self, e: TransferEvent, now: u64)
        ensures
            final(self).deep_view() == after_event(old(self).deep_view(), e.deep_view(), now),
    {
        match e {
            TransferEvent::Progress { percent, bytes_per_sec } => {
                self.percent = percent as u8;
                self.bytes_per_sec = bytes_per_sec;
            },
            TransferEvent::Stage { stage } => {
                if let Some(s) = stage {
                    self.status = s;
                }
            },
            TransferEvent::Done { total_bytes } => {
                self.status = text::own("done");
                self.percent = 100;
                self.total_bytes = match total_bytes {
                    Some(n) => n,
                    None => self.bytes_sent,
                };
                self.completed_at_epoch = Some(now);
            },
            TransferEvent::Failed { error } => {
                self.status = text::own("error");
                self.error = error;
                self.completed_at_epoch = Some(now);
            },
            TransferEvent::Other => {},
        }
    }

    /// Takes in a line of the event stream, given what it says: a mark and
    /// the line itself go to the log.
    pub fn take_line(&mut self, line: String, event: Option<TransferEvent>, now: u64)
        ensures
            ({
                let marked = TransferView {
                    log: logged(old(self).deep_view().log, mark_line()),
                    ..old(self).deep_view()
                };
                let changed = match event.deep_view() {
                    Some(e) => after_event(marked, e, now),
                    None => marked,
                };
                final(self).deep_view() == (TransferView {
                    log: logged(changed.log, line@),
                    ..changed
                })
            }),
    {
        self.push_log(
            sse_line("{\"type\":\"stage\",\"stage\":\"_raw\",\"transport\":\"jaccl-rdma\"}"),
        );
        if let Some(e) = event {
            self.apply(e, now);
        }
        self.push_log(line);
    }

    /// The lines of the log behind a place, and whether the transfer has
    /// ended.
    pub fn tail(&self, cursor: usize) -> (r: (Vec<String>, bool))
        requires
            cursor <= self.log@.len(),
        ensures
            r.0.deep_view() == self.deep_view().log.skip(cursor as int),
            r.1 == over(self.status@),
    {
        let lines: Vec<String> = crate::topology::copy_range(&self.log, cursor, self.log.len());
        assert(lines.deep_view() =~= self.log.deep_view().skip(cursor as int));
        (lines, text::same(&self.status, "done") || text::same(&self.status, "error"))
    }
}

/// An event never changes what a transfer is about, and its log only by the
/// lines that are added.
pub proof fn events_keep_identity(t: TransferView, e: EventView, now: u64)
    ensures
        after_event(t, e, now).id == t.id,
        after_event(t, e, now).peer == t.peer,
        after_event(t, e, now).direction == t.direction,
        after_event(t, e, now).model_dir == t.model_dir,
        after_event(t, e, now).started_at_epoch == t.started_at_epoch,
        after_event(t, e, now).log == t.log,
        e is Done || e is Failed ==> over(after_event(t, e, now).status) && after_event(
            t,
            e,
            now,
        ).completed_at_epoch == Some(now),
{
}

/// The progress that is told while a transfer runs: never a hundred.
pub fn told_percent(percent: u8) -> (r: u8)
    ensures
        r == (if percent < 99 {
            percent
        } else {
            99
        }),
{
    if percent < 99 {
        percent
    } else {
        99
    }
}

/// The speed after so many bytes and seconds.
pub fn speed(bytes: u64, secs: u64) -> (r: u64)
    ensures
        r == (if secs > 0 {
            bytes / secs
        } else {
            0
        }),
{
    if secs > 0 {
        bytes / secs
    } else {
        0
    }
}

// ---------------------------------------------------------------------------
// The course of a transfer
// ---------------------------------------------------------------------------

/// An event that is told of a transfer.
#[derive(Debug)]
pub struct SseEvent {
    pub event_type: String,
    pub stage: Option<String>,
    pub transport: Option<String>,
    pub percent: Option<u8>,
    pub bytes_per_sec: Option<u64>,
    pub duration_ms: Option<u64>,
    pub error: Option<String>,
    pub files: Option<u64>,
    pub total_bytes: Option<u64>,
}

/// An event that is told of a transfer, with its texts.
#[verifier::ext_equal]
pub struct SseView {
    pub event_type: Seq<char>,
    pub stage: Option<Seq<char>>,
    pub transport: Option<Seq<char>>,
    pub percent: Option<u8>,
    pub bytes_per_sec: Option<u64>,
    pub duration_ms: Option<u64>,
    pub error: Option<Seq<char>>,
    pub files: Option<u64>,
    pub total_bytes: Option<u64>,
}

impl DeepView for SseEvent {
    type V = SseView;

    open spec fn deep_view(&self) -> SseView {
        SseView {
            event_type: self.event_type@,
            stage: self.stage.deep_view(),
            transport: self.transport.deep_view(),
            percent: self.percent,
            bytes_per_sec: self.bytes_per_sec,
            duration_ms: self.duration_ms,
            error: self.error.deep_view(),
            files: self.files,
            total_bytes: self.total_bytes,
        }
    }
}

/// An event of a kind that says nothing more.
pub open spec fn bare_event(kind: Seq<char>) -> SseView {
    SseView {
        event_type: kind,
        stage: None,
        transport: None,
        percent: None,
        bytes_per_sec: None,
        duration_ms: None,
        error: None,
        files: None,
        total_bytes: None,
    }
}

/// A stage begins.
pub open spec fn stage_event(name: Seq<char>) -> SseView {
    SseView { stage: Some(name), transport: Some("jaccl-rdma"@), ..bare_event("stage"@) }
}

/// The transfer has gone so far.
pub open spec fn progress_event(percent: u8, bytes_per_sec: u64) -> SseView {
    SseView {
        percent: Some(percent),
        bytes_per_sec: Some(bytes_per_sec),
        ..bare_event("progress"@)
    }
}

/// The transfer succeeded.
pub open spec fn done_event(duration_ms: u64, total_bytes: Option<u64>) -> SseView {
    SseView {
        transport: Some("jaccl-rdma"@),
        duration_ms: Some(duration_ms),
        total_bytes,
        ..bare_event("done"@)
    }
}

/// The transfer failed.
pub open spec fn error_event(message: Seq<char>) -> SseView {
    SseView { transport: Some("jaccl-rdma"@), error: Some(message), ..bare_event("error"@) }
}

impl SseEvent {
    /// An event of a kind that says nothing more.
    fn bare(kind: &str) -> (r: SseEvent)
        ensures
            r.deep_view() == bare_event(kind@),
    {
        SseEvent {
            event_type: text::own(kind),
            stage: None,
            transport: None,
            percent: None,
            bytes_per_sec: None,
            duration_ms: None,
            error: None,
            files: None,
            total_bytes: None,
        }
    }

    /// A stage begins.
    pub fn stage(name: &str) -> (r: SseEvent)
        ensures
            r.deep_view() == stage_event(name@),
    {
        let mut e: SseEvent = SseEvent::bare("stage");
        e.stage = Some(text::own(name));
        e.transport = Some(text::own("jaccl-rdma"));
        e
    }

    /// The transfer has gone so far.
    pub fn progress(percent: u8, bytes_per_sec: u64) -> (r: SseEvent)
        ensures
            r.deep_view() == progress_event(percent, bytes_per_sec),
    {
        let mut e: SseEvent = SseEvent::bare("progress");
        e.percent = Some(percent);
        e.bytes_per_sec = Some(bytes_per_sec);
        e
    }

    /// The transfer succeeded.
    pub fn done(duration_ms: u64, total_bytes: Option<u64>) -> (r: SseEvent)
        ensures
            r.deep_view() == done_event(duration_ms, total_bytes),
    {
        let mut e: SseEvent = SseEvent::bare("done");
        e.transport = Some(text::own("jaccl-rdma"));
        e.duration_ms = Some(duration_ms);
        e.total_bytes = total_bytes;
        e
    }

    /// The transfer failed.
    pub fn error(message: &str) -> (r: SseEvent)
        ensures
            r.deep_view() == error_event(message@),
    {
        let mut e: SseEvent = SseEvent::bare("error");
        e.transport = Some(text::own("jaccl-rdma"));
        e.error = Some(text::own(message));
        e
    }
}

/// What a transfer waits for.
#[derive(Debug, Clone, Copy, PartialEq, Eq, Structural)]
pub enum Wait {
    /// The probe of the protection domains.
    Probe,
    /// Whether the directory of the model is there.
    Directory,
    /// The devices and the address of the coordinator.
    Devices,
    /// Whether the worker took the request for a group.
    Worker,
    /// The answer of the other node.
    Peer,
    /// The group.
    Group,
    /// The files.
    Files,
    /// The comparison of the sums, after so many bytes.
    Sums(u64),
    /// Nothing: the transfer is over.
    Nothing,
}

/// What came of that for which a transfer waited; a text says what failed.
#[derive(Debug)]
pub enum Outcome {
    Probed(i32),
    Found(bool),
    Resolved,
    Queued(Option<String>),
    Answered(Option<String>),
    GroupMade,
    GroupFailed(String),
    ReplyLost,
    Moved(u64),
    MoveFailed(String),
    Verified(u64),
    VerifyFailed(String),
}

/// What came of that for which a transfer waited, with its texts.
pub enum OutcomeView {
    Probed(i32),
    Found(bool),
    Resolved,
    Queued(Option<Seq<char>>),
    Answered(Option<Seq<char>>),
    GroupMade,
    GroupFailed(Seq<char>),
    ReplyLost,
    Moved(u64),
    MoveFailed(Seq<char>),
    Verified(u64),
    VerifyFailed(Seq<char>),
}

impl DeepView for Outcome {
    type V = OutcomeView;

    open spec fn deep_view(&self) -> OutcomeView {
        match self {
            Outcome::Probed(n) => OutcomeView::Probed(*n),
            Outcome::Found(b) => OutcomeView::Found(*b),
            Outcome::Resolved => OutcomeView::Resolved,
            Outcome::Queued(e) => OutcomeView::Queued(e.deep_view()),
            Outcome::Answered(e) => OutcomeView::Answered(e.deep_view()),
            Outcome::GroupMade => OutcomeView::GroupMade,
            Outcome::GroupFailed(e) => OutcomeView::GroupFailed(e@),
            Outcome::ReplyLost => OutcomeView::ReplyLost,
            Outcome::Moved(n) => OutcomeView::Moved(*n),
            Outcome::MoveFailed(e) => OutcomeView::MoveFailed(e@),
            Outcome::Verified(n) => OutcomeView::Verified(*n),
            Outcome::VerifyFailed(e) => OutcomeView::VerifyFailed(e@),
        }
    }
}

/// The transfer fails with that message.
pub open spec fn fails(message: Seq<char>) -> (Wait, Seq<SseView>) {
    (Wait::Nothing, seq![error_event(message)])
}

/// What a transfer waits for next, and what is told meanwhile. An outcome that
/// is not waited for changes nothing.
pub open spec fn course(wait: Wait, outcome: OutcomeView, direction: Seq<char>, path: Seq<char>) -> (
    Wait,
    Seq<SseView>,
) {
    match (wait, outcome) {
        (Wait::Probe, OutcomeView::Probed(n)) => if n == 0 {
            fails("PD exhausted — reboot required (shutdown -h, wait 10s)"@)
        } else if n < 0 {
            fails("RDMA not available on this host (no libibverbs)"@)
        } else {
            (Wait::Directory, Seq::empty())
        },
        (Wait::Directory, OutcomeView::Found(found)) => if direction == "send"@ && !found {
            fails("model directory not found: "@ + path)
        } else {
            (Wait::Devices, seq![stage_event("coordinate"@)])
        },
        (Wait::Devices, OutcomeView::Resolved) => (Wait::Worker, seq![stage_event("init"@)]),
        (Wait::Worker, OutcomeView::Queued(error)) => match error {
            Some(e) => fails(e),
            None => (Wait::Peer, Seq::empty()),
        },
        (Wait::Peer, OutcomeView::Answered(error)) => match error {
            Some(e) => fails("peer unreachable: "@ + e),
            None => (Wait::Group, Seq::empty()),
        },
        (Wait::Group, OutcomeView::GroupMade) => (Wait::Files, seq![stage_event("transfer"@)]),
        (Wait::Group, OutcomeView::GroupFailed(e)) => fails(e),
        (Wait::Group, OutcomeView::ReplyLost) => fails("jaccl worker dropped reply channel"@),
        (Wait::Files, OutcomeView::Moved(total)) => (
            Wait::Sums(total),
            seq![stage_event("verify"@)],
        ),
        (Wait::Files, OutcomeView::MoveFailed(e)) => fails(e),
        (Wait::Sums(total), OutcomeView::Verified(ms)) => (
            Wait::Nothing,
            seq![stage_event("verified"@), done_event(ms, Some(total))],
        ),
        (Wait::Sums(_), OutcomeView::VerifyFailed(e)) => fails(e),
        _ => (wait, Seq::empty()),
    }
}

/// The one event.
fn only(e: SseEvent) -> (r: Vec<SseEvent>)
    ensures
        r.deep_view() == seq![e.deep_view()],
{
    let mut v: Vec<SseEvent> = Vec::new();
    v.push(e);
    assert(v.deep_view() =~= seq![e.deep_view()]);
    v
}

/// No event.
fn silent() -> (r: Vec<SseEvent>)
    ensures
        r.deep_view() == Seq::<SseView>::empty(),
{
    let v: Vec<SseEvent> = Vec::new();
    assert(v.deep_view() =~= Seq::<SseView>::empty());
    v
}

/// The course of a transfer.
#[derive(Debug)]
pub struct Pipeline {
    direction: String,
    path: String,
    wait: Wait,
}

impl Pipeline {
    /// What the transfer waits for.
    pub closed spec fn waits(&self) -> Wait {
        self.wait
    }

    /// The direction that was asked for.
    pub closed spec fn heading(&self) -> Seq<char> {
        self.direction@
    }

    /// The directory of the model.
    pub closed spec fn place(&self) -> Seq<char> {
        self.path@
    }

    /// A transfer that begins, and what is told of it.
    pub fn begin(direction: String, path: String) -> (r: (Pipeline, Vec<SseEvent>))
        ensures
            r.0.heading() == direction@,
            r.0.place() == path@,
            r.0.waits() == Wait::Probe,
            r.1.deep_view() == seq![stage_event("preflight"@)],
    {
        (
            Pipeline { direction, path, wait: Wait::Probe },
            only(SseEvent::stage("preflight")),
        )
    }

    /// What the transfer waits for.
    pub fn waiting(&self) -> (r: Wait)
        ensures
            r == self.waits(),
    {
        self.wait
    }

    /// The transfer goes on; what is told of it.
    pub fn go_on(&mut self, outcome: &Outcome) -> (r: Vec<SseEvent>)
        ensures
            final(self).heading() == old(self).heading(),
            final(self).place() == old(self).place(),
            (final(self).waits(), r.deep_view()) == course(
                old(self).waits(),
                outcome.deep_view(),
                old(self).heading(),
                old(self).place(),
            ),
    {
        match (self.wait, outcome) {
            (Wait::Probe, Outcome::Probed(n)) => match judge_preflight(*n) {
                Err(e) => {
                    self.wait = Wait::Nothing;
                    only(SseEvent::error(&e))
                },
                Ok(_) => {
                    self.wait = Wait::Directory;
                    silent()
                },
            },
            (Wait::Directory, Outcome::Found(found)) => {
                if text::same(&self.direction, "send") && !*found {
                    self.wait = Wait::Nothing;
                    only(SseEvent::error(&text::glue("model directory not found: ", &self.path)))
                } else {
                    self.wait = Wait::Devices;
                    only(SseEvent::stage("coordinate"))
                }
            },
            (Wait::Devices, Outcome::Resolved) => {
                self.wait = Wait::Worker;
                only(SseEvent::stage("init"))
            },
            (Wait::Worker, Outcome::Queued(error)) => match error {
                Some(e) => {
                    self.wait = Wait::Nothing;
                    only(SseEvent::error(e))
                },
                None => {
                    self.wait = Wait::Peer;
                    silent()
                },
            },
            (Wait::Peer, Outcome::Answered(error)) => match error {
                Some(e) => {
                    self.wait = Wait::Nothing;
                    only(SseEvent::error(&text::glue("peer unreachable: ", e)))
                },
                None => {
                    self.wait = Wait::Group;
                    silent()
                },
            },
            (Wait::Group, Outcome::GroupMade) => {
                self.wait = Wait::Files;
                only(SseEvent::stage("transfer"))
            },
            (Wait::Group, Outcome::GroupFailed(e)) => {
                self.wait = Wait::Nothing;
                only(SseEvent::error(e))
            },
            (Wait::Group, Outcome::ReplyLost) => {
                self.wait = Wait::Nothing;
                only(SseEvent::error("jaccl worker dropped reply channel"))
            },
            (Wait::Files, Outcome::Moved(total)) => {
                self.wait = Wait::Sums(*total);
                only(SseEvent::stage("verify"))
            },
            (Wait::Files, Outcome::MoveFailed(e)) => {
                self.wait = Wait::Nothing;
                only(SseEvent::error(e))
            },
            (Wait::Sums(total), Outcome::Verified(ms)) => {
                self.wait = Wait::Nothing;
                let mut v: Vec<SseEvent> = only(SseEvent::stage("verified"));
                text::push_item(&mut v, SseEvent::done(*ms, Some(total)));
                assert(v.deep_view() =~= seq![
                    stage_event("verified"@),
                    done_event(*ms, Some(total)),
                ]);
                v
            },
            (Wait::Sums(_), Outcome::VerifyFailed(e)) => {
                self.wait = Wait::Nothing;
                only(SseEvent::error(e))
            },
            _ => silent(),
        }
    }
}

/// A transfer that is over stays so and tells nothing more.
pub proof fn over_is_over(outcome: OutcomeView, direction: Seq<char>, path: Seq<char>)
    ensures
        course(Wait::Nothing, outcome, direction, path) == (
            Wait::Nothing,
            Seq::<SseView>::empty(),
        ),
{
}

/// The kind is one with which a transfer ends.
pub open spec fn ends_transfer(kind: Seq<char>) -> bool {
    kind == "done"@ || kind == "error"@
}

/// A transfer that runs ends when, and only when, the last event that is told
/// says that it is done or failed; it is done only after the sums were
/// compared.
pub proof fn end_is_told(wait: Wait, outcome: OutcomeView, direction: Seq<char>, path: Seq<char>)
    requires
        wait != Wait::Nothing,
    ensures
        ({
            let (next, told) = course(wait, outcome, direction, path);
            &&& next == Wait::Nothing <==> told.len() > 0 && ends_transfer(told.last().event_type)
            &&& told.len() > 0 && told.last().event_type == "done"@ ==> wait is Sums
                && outcome is Verified
        }),
{
    kinds_differ();
}

/// What is told of a transfer in which all goes well, from the probe on.
pub open spec fn smooth(direction: Seq<char>, path: Seq<char>, total: u64, ms: u64) -> Seq<SseView> {
    let a = course(Wait::Probe, OutcomeView::Probed(1), direction, path);
    let b = course(a.0, OutcomeView::Found(true), direction, path);
    let c = course(b.0, OutcomeView::Resolved, direction, path);
    let d = course(c.0, OutcomeView::Queued(None), direction, path);
    let e = course(d.0, OutcomeView::Answered(None), direction, path);
    let f = course(e.0, OutcomeView::GroupMade, direction, path);
    let g = course(f.0, OutcomeView::Moved(total), direction, path);
    let h = course(g.0, OutcomeView::Verified(ms), direction, path);
    a.1 + b.1 + c.1 + d.1 + e.1 + f.1 + g.1 + h.1
}

/// A transfer in which all goes well tells its stages in order, and at the end
/// how many bytes were moved.
pub proof fn stages_in_order(direction: Seq<char>, path: Seq<char>, total: u64, ms: u64)
    ensures
        smooth(direction, path, total, ms) == seq![
            stage_event("coordinate"@),
            stage_event("init"@),
            stage_event("transfer"@),
            stage_event("verify"@),
            stage_event("verified"@),
            done_event(ms, Some(total)),
        ],
{
    assert(smooth(direction, path, total, ms) =~= seq![
        stage_event("coordinate"@),
        stage_event("init"@),
        stage_event("transfer"@),
        stage_event("verify"@),
        stage_event("verified"@),
        done_event(ms, Some(total)),
    ]);
}

// ---------------------------------------------------------------------------
// Devices
// ---------------------------------------------------------------------------

/// The devices of the first link between two nodes, the one here first.
pub open spec fn linked_devices(links: Seq<LinkView>, local: Seq<char>, peer: Seq<char>) -> Option<
    (Seq<char>, Seq<char>),
>
    decreases links.len(),
{
    if links.len() == 0 {
        None
    } else if links[0].node_a == local && links[0].node_b == peer {
        Some((links[0].device_a, links[0].device_b))
    } else if links[0].node_b == local && links[0].node_a == peer {
        Some((links[0].device_b, links[0].device_a))
    } else {
        linked_devices(links.drop_first(), local, peer)
    }
}

/// The devices that may carry a transfer: those of the first link, unless one
/// of them is the name of an interface.
pub open spec fn usable_devices(links: Seq<LinkView>, local: Seq<char>, peer: Seq<char>) -> Option<
    (Seq<char>, Seq<char>),
> {
    match linked_devices(links, local, peer) {
        Some(d) => if text::starts(d.0, "iface:"@) || text::starts(d.1, "iface:"@) {
            None
        } else {
            Some(d)
        },
        None => None,
    }
}

/// The devices of the first link between two nodes.
fn find_devices(links: &Vec<TopologyLink>, local: &str, peer: &str) -> (r: Option<(String, String)>)
    ensures
        r.deep_view() == linked_devices(links.deep_view(), local@, peer@),
{
    let ghost ls = links.deep_view();
    let mut i: usize = 0;
    assert(ls.skip(0) =~= ls);
    while i < links.len()
        invariant
            i <= links@.len(),
            ls == links.deep_view(),
            linked_devices(ls, local@, peer@) == linked_devices(
                ls.skip(i as int),
                local@,
                peer@,
            ),
        decreases links@.len() - i,
    {
        let l: &TopologyLink = &links[i];
        assert(ls.skip(i as int)[0] == l.deep_view());
        assert(ls.skip(i as int).drop_first() =~= ls.skip(i + 1));
        if text::same(&l.node_a, local) && text::same(&l.node_b, peer) {
            return Some((text::own(&l.device_a), text::own(&l.device_b)));
        }
        if text::same(&l.node_b, local) && text::same(&l.node_a, peer) {
            return Some((text::own(&l.device_b), text::own(&l.device_a)));
        }
        i = i + 1;
    }
    None
}

/// The devices that may carry a transfer, the one here first.
pub fn devices_for_peer(links: &Vec<TopologyLink>, local: &str, peer: &str) -> (r: Option<
    (String, String),
>)
    ensures
        r.deep_view() == usable_devices(links.deep_view(), local@, peer@),
{
    match find_devices(links, local, peer) {
        Some(d) => if text::starts_with(&d.0, "iface:") || text::starts_with(&d.1, "iface:") {
            None
        } else {
            Some(d)
        },
        None => None,
    }
}

/// The devices carry a transfer where the probe of the one here found a free
/// protection domain.
pub fn accept_devices(devices: Option<(String, String)>, probe: i32) -> (r: Option<
    (String, String),
>)
    ensures
        r.deep_view() == (if probe > 0 {
            devices.deep_view()
        } else {
            None
        }),
{
    if probe > 0 {
        devices
    } else {
        None
    }
}

/// The device that the other node names is used where its probe here found a
/// free protection domain.
pub fn validated_device(device: &Option<String>, probe: i32) -> (r: Option<String>)
    ensures
        r.deep_view() == (if probe > 0 {
            device.deep_view()
        } else {
            None
        }),
{
    if probe > 0 {
        text::own_opt(device)
    } else {
        None
    }
}

/// The device of each of two nodes towards the other.
pub struct DevicePair {
    pub rank0: String,
    pub rank1: String,
}

/// The devices by rank, as a node of that rank sees them.
pub open spec fn by_rank(rank: int, local: Seq<char>, peer: Seq<char>) -> (Seq<char>, Seq<char>) {
    if rank == 0 {
        (local, peer)
    } else {
        (peer, local)
    }
}

/// The devices by rank, as a node of that rank sees them.
pub fn device_pair(rank: i32, local: &str, peer: &str) -> (r: DevicePair)
    ensures
        (r.rank0@, r.rank1@) == by_rank(rank as int, local@, peer@),
{
    if rank == 0 {
        DevicePair { rank0: text::own(local), rank1: text::own(peer) }
    } else {
        DevicePair { rank0: text::own(peer), rank1: text::own(local) }
    }
}

/// Both nodes write the same matrix of devices.
pub proof fn both_see_same_devices(a: Seq<char>, b: Seq<char>)
    ensures
        by_rank(0, a, b) == by_rank(1, b, a),
{
}

/// The file that holds the devices of a process.
pub fn devices_path(pid: u32) -> (r: String)
    ensures
        r@ == "/tmp/jaccl-devices-"@ + text::dec(pid as nat) + ".json"@,
{
    let mut s: String = text::glue("/tmp/jaccl-devices-", &text::decimal(pid as u64));
    s.append(".json");
    s
}

// ---------------------------------------------------------------------------
// Addresses
// ---------------------------------------------------------------------------

/// The command that finds the address of the interface of a device.
pub open spec fn address_command(device: Seq<char>) -> Option<Seq<char>> {
    match text::after_prefix(device, "rdma_"@) {
        Some(port) => Some(
            "ifconfig "@ + port
                + " | grep 'inet ' | grep -v '127\\|169.254' | awk '{print $2}' | head -1"@,
        ),
        None => None,
    }
}

/// The command that finds the address of the interface of a device.
pub fn build_address_command(device: &str) -> (r: Option<String>)
    ensures
        r.deep_view() == address_command(device@),
{
    match text::strip_prefix(device, "rdma_") {
        Some(port) => {
            let mut s: String = text::glue("ifconfig ", &port);
            s.append(" | grep 'inet ' | grep -v '127\\|169.254' | awk '{print $2}' | head -1");
            Some(s)
        },
        None => None,
    }
}

/// The address under which this node is reached: that of the device, where
/// the command that asks for it printed one, else that of the local network,
/// else the node itself.
pub fn coordinator_address(printed: &Option<String>, lan: Option<String>) -> (r: String)
    ensures
        r@ == (match printed.deep_view() {
            Some(t) if text::trimmed(t).len() > 0 => text::trimmed(t),
            _ => match lan.deep_view() {
                Some(ip) => ip,
                None => "127.0.0.1"@,
            },
        }),
{
    if let Some(t) = printed {
        let ip: String = text::trim(t);
        if !ip.as_str().is_empty() {
            return ip;
        }
    }
    match lan {
        Some(ip) => ip,
        None => text::own("127.0.0.1"),
    }
}

/// The address is one of the local network, and not one of a cable.
pub open spec fn lan_address(ip: Seq<char>) -> bool {
    (text::starts(ip, "10."@) || text::starts(ip, "192.168."@)) && !text::starts(
        ip,
        "192.168.10."@,
    )
}

/// The name is that of the peer, with or without `.local`.
pub open spec fn names_peer(name: Seq<char>, peer: Seq<char>) -> bool {
    text::same_letters(name, peer) || text::same_letters(name, peer + ".local"@)
}

/// One of the names is that of the peer.
pub open spec fn any_names_peer(names: Seq<Seq<char>>, peer: Seq<char>) -> bool {
    exists|i: int| 0 <= i < names.len() && names_peer(#[trigger] names[i], peer)
}

/// The address that a line of the hosts file gives for a peer.
pub open spec fn host_line(raw: Seq<char>, peer: Seq<char>) -> Option<Seq<char>> {
    let line = text::trimmed(raw);
    let w = text::words_of(line);
    if line.len() == 0 || text::starts(line, "#"@) || w.len() < 2 || !lan_address(w[0])
        || !any_names_peer(w.skip(1), peer) {
        None
    } else {
        Some(w[0])
    }
}

/// The address that the first line of the hosts file gives for a peer.
pub open spec fn host_in(lines: Seq<Seq<char>>, peer: Seq<char>) -> Option<Seq<char>>
    decreases lines.len(),
{
    if lines.len() == 0 {
        None
    } else {
        match host_line(lines[0], peer) {
            Some(ip) => Some(ip),
            None => host_in(lines.drop_first(), peer),
        }
    }
}

/// Whether one of the words behind the first is the name of the peer.
fn check_names(w: &Vec<String>, peer: &str) -> (r: bool)
    requires
        w@.len() >= 1,
    ensures
        r == any_names_peer(w.deep_view().skip(1), peer@),
{
    let ghost ns = w.deep_view().skip(1);
    let local: String = text::glue(peer, ".local");
    let mut i: usize = 1;
    while i < w.len()
        invariant
            1 <= i <= w@.len(),
            ns == w.deep_view().skip(1),
            local@ == peer@ + ".local"@,
            forall|k: int| 0 <= k < i - 1 ==> !names_peer(#[trigger] ns[k], peer@),
        decreases w@.len() - i,
    {
        assert(ns[i - 1] == w@[i as int]@);
        if text::same_but_case(&w[i], peer) || text::same_but_case(&w[i], &local) {
            assert(names_peer(ns[i - 1], peer@));
            return true;
        }
        i = i + 1;
    }
    false
}

/// The address that a line of the hosts file gives for a peer.
fn read_host_line(raw: &str, peer: &str) -> (r: Option<String>)
    ensures
        r.deep_view() == host_line(raw@, peer@),
{
    let line: String = text::trim(raw);
    if line.as_str().is_empty() || text::starts_with(&line, "#") {
        return None;
    }
    let w: Vec<String> = text::words(&line);
    assert(w.deep_view().len() == w@.len());
    if w.len() < 2 {
        return None;
    }
    assert(w.deep_view()[0] == w@[0]@);
    let ip: &String = &w[0];
    if !((text::starts_with(ip, "10.") || text::starts_with(ip, "192.168."))
        && !text::starts_with(ip, "192.168.10.")) {
        return None;
    }
    if check_names(&w, peer) {
        Some(text::own(ip))
    } else {
        None
    }
}

/// The address of a peer in the local network, by the hosts file.
pub fn resolve_peer_lan(hosts: &str, peer: &str) -> (r: Option<String>)
    ensures
        r.deep_view() == host_in(text::lines_of(hosts@), peer@),
{
    let all: Vec<String> = text::lines(hosts);
    let ghost ls = all.deep_view();
    let mut i: usize = 0;
    assert(ls.skip(0) =~= ls);
    while i < all.len()
        invariant
            i <= all@.len(),
            ls == all.deep_view(),
            ls == text::lines_of(hosts@),
            host_in(ls, peer@) == host_in(ls.skip(i as int), peer@),
        decreases all@.len() - i,
    {
        assert(ls.skip(i as int)[0] == all@[i as int]@);
        assert(ls.skip(i as int).drop_first() =~= ls.skip(i + 1));
        let found: Option<String> = read_host_line(&all[i], peer);
        if found.is_some() {
            return found;
        }
        i = i + 1;
    }
    None
}

/// What Tailscale says of a peer: its name and its addresses.
pub struct TailscalePeer {
    pub hostname: String,
    pub ips: Vec<String>,
}

/// What Tailscale says of a peer, with its texts.
pub struct TailscaleView {
    pub hostname: Seq<char>,
    pub ips: Seq<Seq<char>>,
}

impl DeepView for TailscalePeer {
    type V = TailscaleView;

    open spec fn deep_view(&self) -> TailscaleView {
        TailscaleView { hostname: self.hostname@, ips: self.ips.deep_view() }
    }
}

/// What a document says of a peer.
pub open spec fn tailscale_peer(v: serde_json::Value) -> TailscaleView {
    TailscaleView {
        hostname: match json::text_at(v, "HostName"@) {
            Some(h) => h,
            None => Seq::empty(),
        },
        ips: match json::items_at(v, "TailscaleIPs"@) {
            Some(items) => json::texts_in(items),
            None => Seq::empty(),
        },
    }
}

/// What the output of `tailscale status --json` says of the peers.
pub open spec fn tailscale_peers(output: Seq<char>) -> Seq<TailscaleView> {
    match json::json_of(output) {
        Some(v) => match json::json_member(v, "Peer"@) {
            Some(p) => match json::json_values(p) {
                Some(all) => all.map_values(|x: serde_json::Value| tailscale_peer(x)),
                None => Seq::empty(),
            },
            None => Seq::empty(),
        },
        None => Seq::empty(),
    }
}

/// Reads what the output of `tailscale status --json` says of the peers.
pub fn read_tailscale(output: &str) -> (r: Vec<TailscalePeer>)
    ensures
        r.deep_view() == tailscale_peers(output@),
{
    let mut out: Vec<TailscalePeer> = Vec::new();
    assert(out.deep_view() =~= Seq::<TailscaleView>::empty());
    if let Some(v) = json::parse(output) {
        if let Some(p) = json::member(&v, "Peer") {
            if let Some(all) = json::as_values(p) {
                let ghost want = all@.map_values(|x: serde_json::Value| tailscale_peer(x));
                let mut i: usize = 0;
                while i < all.len()
                    invariant
                        i <= all@.len(),
                        want == all@.map_values(|x: serde_json::Value| tailscale_peer(x)),
                        out.deep_view() == want.take(i as int),
                    decreases all@.len() - i,
                {
                    let hostname: String = match json::member_text(&all[i], "HostName") {
                        Some(h) => h,
                        None => String::new(),
                    };
                    let ips: Vec<String> = match json::member_items(&all[i], "TailscaleIPs") {
                        Some(items) => json::read_texts(items),
                        None => Vec::new(),
                    };
                    let peer = TailscalePeer { hostname, ips };
                    assert(peer.ips.deep_view() =~= want[i as int].ips);
                    assert(peer.deep_view() == want[i as int]);
                    text::push_item(&mut out, peer);
                    i = i + 1;
                    assert(out.deep_view() =~= want.take(i as int));
                }
                assert(want.take(i as int) =~= want);
            }
        }
    }
    out
}

/// The first address of version 4.
pub open spec fn first_v4(ips: Seq<Seq<char>>) -> Option<Seq<char>>
    decreases ips.len(),
{
    if ips.len() == 0 {
        None
    } else if !text::has(ips[0], ":"@) {
        Some(ips[0])
    } else {
        first_v4(ips.drop_first())
    }
}

/// The first address of version 4 of a peer with that name.
pub open spec fn tailscale_address(peers: Seq<TailscaleView>, peer: Seq<char>) -> Option<Seq<char>>
    decreases peers.len(),
{
    if peers.len() == 0 {
        None
    } else if text::same_letters(peers[0].hostname, peer) && first_v4(peers[0].ips) is Some {
        first_v4(peers[0].ips)
    } else {
        tailscale_address(peers.drop_first(), peer)
    }
}

/// The first address of version 4.
fn find_v4(ips: &Vec<String>) -> (r: Option<String>)
    ensures
        r.deep_view() == first_v4(ips.deep_view()),
{
    let ghost s = ips.deep_view();
    let mut i: usize = 0;
    assert(s.skip(0) =~= s);
    while i < ips.len()
        invariant
            i <= ips@.len(),
            s == ips.deep_view(),
            first_v4(s) == first_v4(s.skip(i as int)),
        decreases ips@.len() - i,
    {
        assert(s.skip(i as int)[0] == ips@[i as int]@);
        assert(s.skip(i as int).drop_first() =~= s.skip(i + 1));
        if !text::contains(&ips[i], ":") {
            return Some(text::own(&ips[i]));
        }
        i = i + 1;
    }
    None
}

/// The first address of version 4 of a peer with that name.
pub fn resolve_peer_tailscale(peers: &Vec<TailscalePeer>, peer: &str) -> (r: Option<String>)
    ensures
        r.deep_view() == tailscale_address(peers.deep_view(), peer@),
{
    let ghost ps = peers.deep_view();
    let mut i: usize = 0;
    assert(ps.skip(0) =~= ps);
    while i < peers.len()
        invariant
            i <= peers@.len(),
            ps == peers.deep_view(),
            tailscale_address(ps, peer@) == tailscale_address(ps.skip(i as int), peer@),
        decreases peers@.len() - i,
    {
        assert(ps.skip(i as int)[0] == peers@[i as int].deep_view());
        assert(ps.skip(i as int).drop_first() =~= ps.skip(i + 1));
        if text::same_but_case(&peers[i].hostname, peer) {
            let found: Option<String> = find_v4(&peers[i].ips);
            if found.is_some() {
                return found;
            }
        }
        i = i + 1;
    }
    None
}

/// The host that a peer is reached at: the first of the three that is known,
/// else its name in the local network.
pub fn peer_host(
    lan: Option<String>,
    mdns: Option<String>,
    tailscale: Option<String>,
    peer: &str,
) -> (r: String)
    ensures
        r@ == (match (lan.deep_view(), mdns.deep_view(), tailscale.deep_view()) {
            (Some(h), _, _) => h,
            (None, Some(h), _) => h,
            (None, None, Some(h)) => h,
            (None, None, None) => peer@ + ".local"@,
        }),
{
    match lan {
        Some(h) => h,
        None => match mdns {
            Some(h) => h,
            None => match tailscale {
                Some(h) => h,
                None => text::glue(peer, ".local"),
            },
        },
    }
}

/// Where the other node is asked to take part.
pub fn accept_url(host: &str) -> (r: String)
    ensures
        r@ == "http://"@ + host@ + ":9090/transfer/accept"@,
{
    let mut s: String = text::glue("http://", host);
    s.append(":9090/transfer/accept");
    s
}

/// The port of the coordinator where the system gives none. The number of the
/// process counts as one with a sign.
pub fn fallback_port(pid: u32) -> (r: i32)
    ensures
        pid <= 0x7fff_ffff ==> r == 49200 + pid % 1000,
        pid > 0x7fff_ffff ==> r == 49200 - (0x1_0000_0000 - pid) % 1000,
{
    if pid <= 0x7fff_ffff {
        49200 + (pid % 1000) as i32
    } else {
        let below: u64 = 0x1_0000_0000 - pid as u64;
        49200 - (below % 1000) as i32
    }
}

// ---------------------------------------------------------------------------
// Groups
// ---------------------------------------------------------------------------

/// What is done when a group with a peer is asked for.
#[derive(Debug, Clone, Copy, PartialEq, Eq, Structural)]
pub enum GroupStep {
    /// The one that is there is used, on its port.
    Reuse(i32),
    /// The one that is there no longer lives: it goes, and a new one is made.
    Replace,
    /// A new one is made.
    Make,
}

/// The port of the group with a peer.
pub open spec fn port_of(groups: Seq<(Seq<char>, i32)>, peer: Seq<char>) -> Option<i32>
    decreases groups.len(),
{
    if groups.len() == 0 {
        None
    } else if groups.last().0 == peer {
        Some(groups.last().1)
    } else {
        port_of(groups.drop_last(), peer)
    }
}

/// The groups without that with a peer.
pub open spec fn without_peer(groups: Seq<(Seq<char>, i32)>, peer: Seq<char>) -> Seq<
    (Seq<char>, i32),
>
    decreases groups.len(),
{
    if groups.len() == 0 {
        groups
    } else if groups.last().0 == peer {
        without_peer(groups.drop_last(), peer)
    } else {
        without_peer(groups.drop_last(), peer).push(groups.last())
    }
}

/// A group that went is no longer there, and the others are.
pub proof fn gone_is_gone(groups: Seq<(Seq<char>, i32)>, peer: Seq<char>, other: Seq<char>)
    ensures
        port_of(without_peer(groups, peer), peer) is None,
        other != peer ==> port_of(without_peer(groups, peer), other) == port_of(groups, other),
    decreases groups.len(),
{
    if groups.len() > 0 {
        gone_is_gone(groups.drop_last(), peer, other);
        let w = without_peer(groups.drop_last(), peer);
        if groups.last().0 != peer {
            assert(w.push(groups.last()).drop_last() =~= w);
        }
    }
}

/// The groups of a node with its peers, and the port of each.
pub struct GroupTable {
    groups: Vec<(String, i32)>,
}

impl View for GroupTable {
    type V = Seq<(Seq<char>, i32)>;

    closed spec fn view(&self) -> Seq<(Seq<char>, i32)> {
        self.groups.deep_view()
    }
}

impl GroupTable {
    /// No groups.
    pub fn new() -> (r: GroupTable)
        ensures
            r@.len() == 0,
    {
        GroupTable { groups: Vec::new() }
    }

    /// The port of the group with a peer.
    pub fn port(&self, peer: &str) -> (r: Option<i32>)
        ensures
            r == port_of(self@, peer@),
    {
        let ghost s = self.groups.deep_view();
        let mut i: usize = self.groups.len();
        assert(s.take(i as int) =~= s);
        while i > 0
            invariant
                i <= self.groups@.len(),
                s == self.groups.deep_view(),
                port_of(s, peer@) == port_of(s.take(i as int), peer@),
            decreases i,
        {
            let ghost t = s.take(i as int);
            assert(t.last() == self.groups@[i - 1].deep_view());
            assert(t.drop_last() =~= s.take(i - 1));
            if text::same(&self.groups[i - 1].0, peer) {
                return Some(self.groups[i - 1].1);
            }
            i = i - 1;
        }
        None
    }

    /// What is done when a group with a peer is asked for, given whether the
    /// one that is there lives.
    pub fn decide(&self, peer: &str, alive: bool) -> (r: GroupStep)
        ensures
            match port_of(self@, peer@) {
                Some(p) => if alive {
                    r == GroupStep::Reuse(p)
                } else {
                    r == GroupStep::Replace
                },
                None => r == GroupStep::Make,
            },
    {
        match self.port(peer) {
            Some(p) => if alive {
                GroupStep::Reuse(p)
            } else {
                GroupStep::Replace
            },
            None => GroupStep::Make,
        }
    }

    /// The group with a peer goes.
    pub fn remove(&mut self, peer: &str)
        ensures
            final(self)@ == without_peer(old(self)@, peer@),
    {
        let ghost s = self.groups.deep_view();
        let mut kept: Vec<(String, i32)> = Vec::new();
        let mut i: usize = 0;
        assert(kept.deep_view() =~= without_peer(s.take(0), peer@));
        while i < self.groups.len()
            invariant
                i <= self.groups@.len(),
                s == self.groups.deep_view(),
                s == old(self)@,
                kept.deep_view() == without_peer(s.take(i as int), peer@),
            decreases self.groups@.len() - i,
        {
            proof {
                assert(s.take(i + 1).drop_last() =~= s.take(i as int));
                assert(s.take(i + 1).last() == self.groups@[i as int].deep_view());
            }
            if !text::same(&self.groups[i].0, peer) {
                text::push_item(
                    &mut kept,
                    (text::own(&self.groups[i].0), self.groups[i].1),
                );
            }
            i = i + 1;
        }
        assert(s.take(i as int) =~= s);
        self.groups = kept;
    }

    /// A group with a peer was made.
    pub fn record(&mut self, peer: &str, port: i32)
        ensures
            final(self)@ == without_peer(old(self)@, peer@).push((peer@, port)),
            port_of(final(self)@, peer@) == Some(port),
    {
        self.remove(peer);
        text::push_item(&mut self.groups, (text::own(peer), port));
    }
}

/// What is said where there is no group with a peer.
pub fn no_group(peer: &str) -> (r: String)
    ensures
        r@ == "no JACCL group for peer '"@ + peer@ + "'"@,
{
    let mut s: String = text::glue("no JACCL group for peer '", peer);
    s.append("'");
    s
}

/// The name under which the other node of a transfer keeps its group.
pub fn accept_key(model_dir: &str) -> (r: String)
    ensures
        r@ == "accept:"@ + model_dir@,
{
    text::glue("accept:", model_dir)
}

// ---------------------------------------------------------------------------
// Files and sums
// ---------------------------------------------------------------------------

/// A file of a transfer.
pub struct FileEntry {
    pub name: String,
    pub size: u64,
}

/// The sum of the sizes of files.
pub open spec fn files_size(files: Seq<FileEntry>) -> nat
    decreases files.len(),
{
    if files.len() == 0 {
        0
    } else {
        files_size(files.drop_last()) + files.last().size as nat
    }
}

/// The sum over a part of the files is no larger than that over all.
proof fn files_size_grows(files: Seq<FileEntry>, i: int)
    requires
        0 <= i <= files.len(),
    ensures
        files_size(files.take(i)) <= files_size(files),
    decreases files.len() - i,
{
    if i < files.len() {
        files_size_grows(files, i + 1);
        assert(files.take(i + 1).drop_last() =~= files.take(i));
    } else {
        assert(files.take(i) =~= files);
    }
}

/// The sum of the sizes of files, if it is a number of 64 bits.
pub fn total_size(files: &Vec<FileEntry>) -> (r: Option<u64>)
    ensures
        r is Some <==> files_size(files@) <= u64::MAX,
        r matches Some(n) ==> n == files_size(files@),
{
    let mut sum: u64 = 0;
    let mut i: usize = 0;
    while i < files.len()
        invariant
            i <= files@.len(),
            sum == files_size(files@.take(i as int)),
        decreases files@.len() - i,
    {
        proof {
            assert(files@.take(i + 1).drop_last() =~= files@.take(i as int));
            assert(files@.take(i + 1).last() == files@[i as int]);
            files_size_grows(files@, i + 1);
        }
        if files[i].size > u64::MAX - sum {
            return None;
        }
        sum = sum + files[i].size;
        i = i + 1;
    }
    assert(files@.take(i as int) =~= files@);
    Some(sum)
}

/// Whether there is something to send.
pub fn check_files(files: &Vec<FileEntry>) -> (r: Result<(), String>)
    ensures
        match r {
            Ok(_) => files@.len() > 0,
            Err(e) => files@.len() == 0 && e@ == "no files in model directory"@,
        },
{
    if files.len() == 0 {
        Err(text::own("no files in model directory"))
    } else {
        Ok(())
    }
}

/// The files of a transfer, one after the other.
pub struct FileRun {
    names: Vec<String>,
    sizes: Vec<u64>,
    place: usize,
    moved: u64,
}

/// What went wrong with a file.
#[derive(Debug)]
pub enum FileFault {
    /// The worker gave no reply.
    Lost,
    /// The worker said what failed.
    Said(String),
}

/// What is said of a file with which something went wrong.
pub open spec fn file_fault(verb: Seq<char>, name: Seq<char>, said: Option<Seq<char>>) -> Seq<char> {
    match said {
        None => "worker dropped reply for "@ + name,
        Some(e) => "bulk "@ + verb + " "@ + name + ": "@ + e,
    }
}

impl FileFault {
    /// What the worker said.
    pub open spec fn said(&self) -> Option<Seq<char>> {
        match self {
            FileFault::Lost => None,
            FileFault::Said(e) => Some(e@),
        }
    }

    /// What is said of a file with which something went wrong, when it was
    /// sent (`send`) or received (`recv`).
    pub fn to_text(&self, verb: &str, name: &str) -> (r: String)
        ensures
            r@ == file_fault(verb@, name@, self.said()),
    {
        match self {
            FileFault::Lost => text::glue("worker dropped reply for ", name),
            FileFault::Said(e) => {
                let mut s: String = text::glue("bulk ", verb);
                s.append(" ");
                s.append(name);
                s.append(": ");
                s.append(e);
                s
            },
        }
    }
}

impl FileRun {
    /// The names of the files, their sizes, how many of them are done, and the
    /// bytes that were moved.
    pub closed spec fn names(&self) -> Seq<Seq<char>> {
        self.names.deep_view()
    }

    /// The sizes of the files.
    pub closed spec fn sizes(&self) -> Seq<u64> {
        self.sizes@
    }

    /// How many files are done.
    pub closed spec fn done(&self) -> nat {
        self.place as nat
    }

    /// The bytes that were moved.
    pub closed spec fn bytes(&self) -> nat {
        self.moved as nat
    }

    /// Each file has a size, and the files that are done are moved whole.
    pub open spec fn sound(&self) -> bool {
        &&& self.names().len() == self.sizes().len()
        &&& self.done() <= self.sizes().len()
        &&& self.bytes() == sizes_sum(self.sizes().take(self.done() as int))
        &&& sizes_sum(self.sizes()) <= u64::MAX
    }

    /// A run over files whose sizes add up to a number of 64 bits.
    pub fn new(files: &Vec<FileEntry>) -> (r: FileRun)
        requires
            files_size(files@) <= u64::MAX,
        ensures
            r.sound(),
            r.done() == 0,
            r.bytes() == 0,
            r.names().len() == files@.len(),
            forall|i: int|
                #![trigger r.names()[i]]
                #![trigger r.sizes()[i]]
                0 <= i < files@.len() ==> r.names()[i] == files@[i].name@ && r.sizes()[i]
                    == files@[i].size,
    {
        let mut names: Vec<String> = Vec::new();
        let mut sizes: Vec<u64> = Vec::new();
        let mut i: usize = 0;
        assert(files@.take(0) =~= Seq::<FileEntry>::empty());
        assert(sizes@ =~= Seq::<u64>::empty());
        while i < files.len()
            invariant
                i <= files@.len(),
                names@.len() == i,
                sizes@.len() == i,
                forall|k: int| 0 <= k < i ==> (#[trigger] names@[k])@ == files@[k].name@,
                forall|k: int| 0 <= k < i ==> #[trigger] sizes@[k] == files@[k].size,
                sizes_sum(sizes@) == files_size(files@.take(i as int)),
            decreases files@.len() - i,
        {
            let ghost before = sizes@;
            names.push(text::own(&files[i].name));
            sizes.push(files[i].size);
            proof {
                assert(sizes@.drop_last() =~= before);
                assert(files@.take(i + 1).drop_last() =~= files@.take(i as int));
                assert(files@.take(i + 1).last() == files@[i as int]);
            }
            i = i + 1;
        }
        assert(files@.take(i as int) =~= files@);
        let r = FileRun { names, sizes, place: 0, moved: 0 };
        assert(r.sizes@.take(0) =~= Seq::<u64>::empty());
        assert(forall|k: int|
            0 <= k < files@.len() ==> #[trigger] r.names.deep_view()[k] == files@[k].name@);
        r
    }

    /// The file that comes next, with its size.
    pub fn next_file(&self) -> (r: Option<(String, u64)>)
        requires
            self.sound(),
        ensures
            r.deep_view() == (if self.done() < self.sizes().len() {
                Some((self.names()[self.done() as int], self.sizes()[self.done() as int]))
            } else {
                None
            }),
    {
        if self.place < self.sizes.len() {
            Some((text::own(&self.names[self.place]), self.sizes[self.place]))
        } else {
            None
        }
    }

    /// The bytes that were moved, when so many of the next file are.
    pub fn so_far(&self, of_file: u64) -> (r: u64)
        requires
            self.sound(),
            self.done() < self.sizes().len(),
            of_file <= self.sizes()[self.done() as int],
        ensures
            r == self.bytes() + of_file,
    {
        proof {
            sum_grows(self.sizes@, self.place as int);
        }
        self.moved + of_file
    }

    /// The next file was moved whole.
    pub fn record(&mut self)
        requires
            old(self).sound(),
            old(self).done() < old(self).sizes().len(),
        ensures
            final(self).sound(),
            final(self).names() == old(self).names(),
            final(self).sizes() == old(self).sizes(),
            final(self).done() == old(self).done() + 1,
            final(self).bytes() == old(self).bytes() + old(self).sizes()[old(self).done() as int],
    {
        proof {
            sum_grows(self.sizes@, self.place as int);
            let s = self.sizes@;
            let i = self.place as int;
            assert(s.take(i + 1).drop_last() =~= s.take(i));
            assert(s.take(i + 1).last() == s[i]);
        }
        let n: usize = self.sizes.len();
        assert(self.place < n);
        self.moved = self.moved + self.sizes[self.place];
        self.place = self.place + 1;
    }

    /// The bytes that were moved.
    pub fn total_moved(&self) -> (r: u64)
        ensures
            r == self.bytes(),
    {
        self.moved
    }
}

/// The sum of sizes.
pub open spec fn sizes_sum(s: Seq<u64>) -> nat
    decreases s.len(),
{
    if s.len() == 0 {
        0
    } else {
        sizes_sum(s.drop_last()) + s.last() as nat
    }
}

/// The sum up to a place and the size there are no more than the sum over all.
proof fn sum_grows(s: Seq<u64>, i: int)
    requires
        0 <= i < s.len(),
    ensures
        sizes_sum(s.take(i)) + s[i] <= sizes_sum(s),
    decreases s.len() - i,
{
    assert(s.take(i + 1).drop_last() =~= s.take(i));
    assert(s.take(i + 1).last() == s[i]);
    if i + 1 < s.len() {
        sum_grows(s, i + 1);
    } else {
        assert(s.take(i + 1) =~= s);
    }
}

/// When every file is done, as many bytes were moved as the files have.
pub proof fn all_bytes_move(run: FileRun)
    requires
        run.sound(),
        run.done() == run.sizes().len(),
    ensures
        run.bytes() == sizes_sum(run.sizes()),
{
    assert(run.sizes().take(run.done() as int) =~= run.sizes());
}

/// Whether the size that comes before a file is the one that was announced.
pub fn check_size(announced: u64, sent: u64) -> (r: Result<(), String>)
    ensures
        match r {
            Ok(_) => announced == sent,
            Err(e) => announced != sent && e@ == "file size mismatch: manifest says "@ + text::dec(
                announced as nat,
            ) + ", wire says "@ + text::dec(sent as nat),
        },
{
    if announced == sent {
        Ok(())
    } else {
        let mut s: String = text::glue(
            "file size mismatch: manifest says ",
            &text::decimal(announced),
        );
        s.append(", wire says ");
        s.append(&text::decimal(sent));
        Err(s)
    }
}

/// The sum of a file.
pub struct FileChecksum {
    pub name: String,
    pub sha256: String,
}

/// The sum of a file, with its texts.
pub struct ChecksumView {
    pub name: Seq<char>,
    pub sha256: Seq<char>,
}

impl DeepView for FileChecksum {
    type V = ChecksumView;

    open spec fn deep_view(&self) -> ChecksumView {
        ChecksumView { name: self.name@, sha256: self.sha256@ }
    }
}

/// The sum of the first file of that name.
pub open spec fn sum_of(sums: Seq<ChecksumView>, name: Seq<char>) -> Option<Seq<char>>
    decreases sums.len(),
{
    if sums.len() == 0 {
        None
    } else if sums[0].name == name {
        Some(sums[0].sha256)
    } else {
        sum_of(sums.drop_first(), name)
    }
}

/// What is wrong with a file, if anything: the other node has another sum for
/// it, or does not have it.
pub open spec fn fault(here: ChecksumView, there: Seq<ChecksumView>) -> Option<Seq<char>> {
    match sum_of(there, here.name) {
        Some(s) => if s == here.sha256 {
            None
        } else {
            Some(
                "checksum mismatch for "@ + here.name + ": local="@ + here.sha256 + " remote="@
                    + s,
            )
        },
        None => Some("file "@ + here.name + " missing on peer"@),
    }
}

/// What is wrong with the first file with which something is.
pub open spec fn first_fault(here: Seq<ChecksumView>, there: Seq<ChecksumView>) -> Option<
    Seq<char>,
>
    decreases here.len(),
{
    if here.len() == 0 {
        None
    } else {
        match fault(here[0], there) {
            Some(m) => Some(m),
            None => first_fault(here.drop_first(), there),
        }
    }
}

/// The sum of the first file of that name.
fn find_sum(sums: &Vec<FileChecksum>, name: &str) -> (r: Option<String>)
    ensures
        r.deep_view() == sum_of(sums.deep_view(), name@),
{
    let ghost s = sums.deep_view();
    let mut i: usize = 0;
    assert(s.skip(0) =~= s);
    while i < sums.len()
        invariant
            i <= sums@.len(),
            s == sums.deep_view(),
            sum_of(s, name@) == sum_of(s.skip(i as int), name@),
        decreases sums@.len() - i,
    {
        assert(s.skip(i as int)[0] == sums@[i as int].deep_view());
        assert(s.skip(i as int).drop_first() =~= s.skip(i + 1));
        if text::same(&sums[i].name, name) {
            return Some(text::own(&sums[i].sha256));
        }
        i = i + 1;
    }
    None
}

/// Whether the other node has every file with the same sum.
pub fn compare_sums(here: &Vec<FileChecksum>, there: &Vec<FileChecksum>) -> (r: Result<(), String>)
    ensures
        match first_fault(here.deep_view(), there.deep_view()) {
            None => r is Ok,
            Some(m) => r matches Err(e) && e@ == m,
        },
{
    let ghost hs = here.deep_view();
    let ghost ts = there.deep_view();
    let mut i: usize = 0;
    assert(hs.skip(0) =~= hs);
    while i < here.len()
        invariant
            i <= here@.len(),
            hs == here.deep_view(),
            ts == there.deep_view(),
            first_fault(hs, ts) == first_fault(hs.skip(i as int), ts),
        decreases here@.len() - i,
    {
        let f: &FileChecksum = &here[i];
        assert(hs.skip(i as int)[0] == f.deep_view());
        assert(hs.skip(i as int).drop_first() =~= hs.skip(i + 1));
        match find_sum(there, &f.name) {
            None => {
                let mut s: String = text::glue("file ", &f.name);
                s.append(" missing on peer");
                return Err(s);
            },
            Some(sum) => {
                if !text::same(&sum, &f.sha256) {
                    let mut s: String = text::glue("checksum mismatch for ", &f.name);
                    s.append(": local=");
                    s.append(&f.sha256);
                    s.append(" remote=");
                    s.append(&sum);
                    return Err(s);
                }
            },
        }
        i = i + 1;
    }
    Ok(())
}

/// The sums agree where the other node has each file of this one with the same
/// sum, and only there.
pub proof fn sums_agree(here: Seq<ChecksumView>, there: Seq<ChecksumView>)
    ensures
        first_fault(here, there) is None <==> forall|i: int|
            0 <= i < here.len() ==> sum_of(there, (#[trigger] here[i]).name) == Some(
                here[i].sha256,
            ),
    decreases here.len(),
{
    if here.len() > 0 {
        let rest = here.drop_first();
        sums_agree(rest, there);
        if first_fault(here, there) is None {
            assert forall|i: int| 0 <= i < here.len() implies sum_of(
                there,
                (#[trigger] here[i]).name,
            ) == Some(here[i].sha256) by {
                if i > 0 {
                    assert(here[i] == rest[i - 1]);
                }
            }
        }
        if forall|i: int|
            0 <= i < here.len() ==> sum_of(there, (#[trigger] here[i]).name) == Some(
                here[i].sha256,
            ) {
            assert(sum_of(there, here[0].name) == Some(here[0].sha256));
            assert forall|i: int| 0 <= i < rest.len() implies sum_of(
                there,
                (#[trigger] rest[i]).name,
            ) == Some(rest[i].sha256) by {
                assert(rest[i] == here[i + 1]);
            }
        }
    }
}

// ---------------------------------------------------------------------------
// Laws of transfers
// ---------------------------------------------------------------------------

/// Whether a link joins two nodes over two devices, whichever end stands first.
pub open spec fn joins(
    link: LinkView,
    local: Seq<char>,
    peer: Seq<char>,
    here: Seq<char>,
    there: Seq<char>,
) -> bool {
    ||| link.node_a == local && link.node_b == peer && link.device_a == here && link.device_b
        == there
    ||| link.node_b == local && link.node_a == peer && link.device_b == here && link.device_a
        == there
}

/// Whether a link joins two nodes, over whichever devices.
pub open spec fn joins_nodes(link: LinkView, a: Seq<char>, b: Seq<char>) -> bool {
    (link.node_a == a && link.node_b == b) || (link.node_b == a && link.node_a == b)
}

/// The devices between two nodes are those of a link that joins them, that of
/// this node first; there are none only where no link joins the two.
pub proof fn devices_are_of_their_nodes(links: Seq<LinkView>, local: Seq<char>, peer: Seq<char>)
    ensures
        match linked_devices(links, local, peer) {
            Some(d) => exists|i: int|
                0 <= i < links.len() && joins(#[trigger] links[i], local, peer, d.0, d.1),
            None => forall|i: int|
                0 <= i < links.len() ==> !joins_nodes(#[trigger] links[i], local, peer),
        },
        local != peer ==> linked_devices(links, peer, local) == (match linked_devices(
            links,
            local,
            peer,
        ) {
            Some(d) => Some((d.1, d.0)),
            None => None,
        }),
    decreases links.len(),
{
    if links.len() > 0 {
        let rest = links.drop_first();
        devices_are_of_their_nodes(rest, local, peer);
        if joins_nodes(links[0], local, peer) {
            let d = linked_devices(links, local, peer)->0;
            assert(joins(links[0], local, peer, d.0, d.1));
        } else if let Some(d) = linked_devices(rest, local, peer) {
            let i = choose|i: int|
                0 <= i < rest.len() && joins(#[trigger] rest[i], local, peer, d.0, d.1);
            assert(links[i + 1] == rest[i]);
        } else {
            assert forall|i: int| 0 <= i < links.len() implies !joins_nodes(
                #[trigger] links[i],
                local,
                peer,
            ) by {
                if i > 0 {
                    assert(links[i] == rest[i - 1]);
                }
            }
        }
    }
}

/// Devices that were only guessed from an interface are not used; others are.
pub proof fn guessed_devices_are_not_used(
    links: Seq<LinkView>,
    local: Seq<char>,
    peer: Seq<char>,
    name: Seq<char>,
)
    ensures
        ({
            let d = linked_devices(links, local, peer);
            &&& d matches Some(p) ==> (p.0 == "iface:"@ + name ==> usable_devices(
                links,
                local,
                peer,
            ) is None)
            &&& d matches Some(p) ==> (p.1 == "iface:"@ + name ==> usable_devices(
                links,
                local,
                peer,
            ) is None)
            &&& usable_devices(links, local, peer) is Some ==> usable_devices(links, local, peer)
                == d
        }),
{
    let s = "iface:"@ + name;
    assert(s.take("iface:"@.len() as int) =~= "iface:"@);
}

/// The address of a peer is the first word of the first line of the hosts that
/// gives one, and each such line names the peer behind the address.
pub proof fn host_is_of_the_first_line(lines: Seq<Seq<char>>, peer: Seq<char>)
    ensures
        match host_in(lines, peer) {
            Some(ip) => exists|i: int|
                0 <= i < lines.len() && #[trigger] host_line(lines[i], peer) == Some(ip) && forall|
                    j: int,
                |
                    0 <= j < i ==> host_line(#[trigger] lines[j], peer) is None,
            None => forall|j: int| 0 <= j < lines.len() ==> host_line(#[trigger] lines[j], peer) is None,
        },
    decreases lines.len(),
{
    if lines.len() > 0 {
        let rest = lines.drop_first();
        host_is_of_the_first_line(rest, peer);
        if host_line(lines[0], peer) is None {
            if let Some(ip) = host_in(rest, peer) {
                let i = choose|i: int|
                    0 <= i < rest.len() && #[trigger] host_line(rest[i], peer) == Some(ip)
                        && forall|j: int|
                        0 <= j < i ==> host_line(#[trigger] rest[j], peer) is None;
                assert(lines[i + 1] == rest[i]);
                assert(host_line(lines[i + 1], peer) == Some(ip));
                assert forall|j: int| 0 <= j < i + 1 implies host_line(
                    #[trigger] lines[j],
                    peer,
                ) is None by {
                    if j > 0 {
                        assert(lines[j] == rest[j - 1]);
                    }
                }
            } else {
                assert forall|j: int| 0 <= j < lines.len() implies host_line(
                    #[trigger] lines[j],
                    peer,
                ) is None by {
                    if j > 0 {
                        assert(lines[j] == rest[j - 1]);
                    }
                }
            }
        } else {
            assert(host_line(lines[0], peer) == host_in(lines, peer));
        }
    }
}

/// A line of the hosts gives the address before its names to a peer that one of
/// the names is for, with or without `.local`; a comment gives none.
pub proof fn line_gives_address(raw: Seq<char>, ip: Seq<char>, names: Seq<Seq<char>>, k: int, peer: Seq<char>)
    requires
        text::words_of(text::trimmed(raw)) == seq![ip] + names,
        0 <= k < names.len(),
        names[k] == peer || names[k] == peer + ".local"@,
        lan_address(ip),
    ensures
        !text::starts(text::trimmed(raw), "#"@) ==> host_line(raw, peer) == Some(ip),
        text::starts(text::trimmed(raw), "#"@) ==> host_line(raw, peer) is None,
{
    let w = text::words_of(text::trimmed(raw));
    assert(w.skip(1) =~= names);
    assert(names_peer(names[k], peer));
    assert(w[0] == ip);
}

/// The addresses of the local network are those that start with `10.` or
/// `192.168.`, but not those of the cables, which start with `192.168.10.`.
pub proof fn cables_are_no_local_network(rest: Seq<char>)
    ensures
        lan_address("10."@ + rest),
        !lan_address("192.168.10."@ + rest),
        rest.len() > 0 && rest[0] != '1' ==> lan_address("192.168."@ + rest),
{
    reveal_strlit("10.");
    reveal_strlit("192.168.");
    reveal_strlit("192.168.10.");
    let a = "10."@ + rest;
    assert(a.take(3) =~= "10."@);
    assert(a[0] == '1' && a[1] == '0');
    if text::starts(a, "192.168.10."@) {
        assert(a.take(11)[1] == '9');
    }
    let b = "192.168.10."@ + rest;
    assert(b.take(11) =~= "192.168.10."@);
    let c = "192.168."@ + rest;
    assert(c.take(8) =~= "192.168."@);
    if rest.len() > 0 && rest[0] != '1' && text::starts(c, "192.168.10."@) {
        assert(c[8] == rest[0]);
        assert(c.take(11)[8] == '1');
    }
}

/// The address taken of a list is its first without a colon.
pub proof fn first_short_address_is_taken(front: Seq<Seq<char>>, ip: Seq<char>, back: Seq<Seq<char>>)
    requires
        forall|i: int| 0 <= i < front.len() ==> text::has(#[trigger] front[i], ":"@),
        !text::has(ip, ":"@),
    ensures
        first_v4(front + seq![ip] + back) == Some(ip),
        first_v4(front) is None,
    decreases front.len(),
{
    let all = front + seq![ip] + back;
    if front.len() > 0 {
        assert(all[0] == front[0]);
        assert(all.drop_first() =~= front.drop_first() + seq![ip] + back);
        assert forall|i: int| 0 <= i < front.drop_first().len() implies text::has(
            #[trigger] front.drop_first()[i],
            ":"@,
        ) by {
            assert(front.drop_first()[i] == front[i + 1]);
        }
        first_short_address_is_taken(front.drop_first(), ip, back);
    } else {
        assert(all[0] == ip);
    }
}

/// The address of a peer is one of the node of its name, in capitals or not.
pub proof fn address_is_of_the_peer(peers: Seq<TailscaleView>, peer: Seq<char>)
    ensures
        match tailscale_address(peers, peer) {
            Some(ip) => exists|i: int|
                0 <= i < peers.len() && text::same_letters((#[trigger] peers[i]).hostname, peer)
                    && first_v4(peers[i].ips) == Some(ip),
            None => forall|i: int|
                0 <= i < peers.len() && text::same_letters((#[trigger] peers[i]).hostname, peer)
                    ==> first_v4(peers[i].ips) is None,
        },
    decreases peers.len(),
{
    if peers.len() > 0 {
        let rest = peers.drop_first();
        address_is_of_the_peer(rest, peer);
        if text::same_letters(peers[0].hostname, peer) && first_v4(peers[0].ips) is Some {
            assert(first_v4(peers[0].ips) == tailscale_address(peers, peer));
        } else if let Some(ip) = tailscale_address(rest, peer) {
            let i = choose|i: int|
                0 <= i < rest.len() && text::same_letters((#[trigger] rest[i]).hostname, peer)
                    && first_v4(rest[i].ips) == Some(ip);
            assert(peers[i + 1] == rest[i]);
        } else {
            assert forall|i: int|
                0 <= i < peers.len() && text::same_letters(
                    (#[trigger] peers[i]).hostname,
                    peer,
                ) implies first_v4(peers[i].ips) is None by {
                if i > 0 {
                    assert(peers[i] == rest[i - 1]);
                }
            }
        }
    }
}

/// The size of some files is the sum of their sizes.
pub proof fn files_add_up(a: Seq<FileEntry>, b: Seq<FileEntry>)
    ensures
        files_size(a + b) == files_size(a) + files_size(b),
        forall|f: FileEntry| files_size(#[trigger] seq![f]) == f.size,
        files_size(Seq::empty()) == 0,
    decreases b.len(),
{
    assert forall|f: FileEntry| files_size(#[trigger] seq![f]) == f.size by {
        assert(seq![f].drop_last() =~= Seq::<FileEntry>::empty());
        assert(files_size(Seq::<FileEntry>::empty()) == 0);
    }
    if b.len() > 0 {
        assert((a + b).drop_last() =~= a + b.drop_last());
        files_add_up(a, b.drop_last());
    } else {
        assert(a + b =~= a);
    }
}

/// The sum of some sizes grows by each of them.
pub proof fn sizes_add_up(a: Seq<u64>, b: Seq<u64>)
    ensures
        sizes_sum(a + b) == sizes_sum(a) + sizes_sum(b),
        forall|n: u64| sizes_sum(#[trigger] seq![n]) == n,
        sizes_sum(Seq::empty()) == 0,
    decreases b.len(),
{
    assert forall|n: u64| sizes_sum(#[trigger] seq![n]) == n by {
        assert(seq![n].drop_last() =~= Seq::<u64>::empty());
        assert(sizes_sum(Seq::<u64>::empty()) == 0);
    }
    if b.len() > 0 {
        assert((a + b).drop_last() =~= a + b.drop_last());
        sizes_add_up(a, b.drop_last());
    } else {
        assert(a + b =~= a);
    }
}

/// The sum of a file is the one listed under its name.
pub proof fn sum_is_of_the_file(sums: Seq<ChecksumView>, name: Seq<char>)
    ensures
        match sum_of(sums, name) {
            Some(s) => exists|i: int|
                0 <= i < sums.len() && (#[trigger] sums[i]).name == name && sums[i].sha256 == s,
            None => forall|i: int| 0 <= i < sums.len() ==> (#[trigger] sums[i]).name != name,
        },
    decreases sums.len(),
{
    if sums.len() > 0 {
        let rest = sums.drop_first();
        sum_is_of_the_file(rest, name);
        if sums[0].name != name {
            if let Some(s) = sum_of(rest, name) {
                let i = choose|i: int|
                    0 <= i < rest.len() && (#[trigger] rest[i]).name == name && rest[i].sha256 == s;
                assert(sums[i + 1] == rest[i]);
            } else {
                assert forall|i: int| 0 <= i < sums.len() implies (#[trigger] sums[i]).name
                    != name by {
                    if i > 0 {
                        assert(sums[i] == rest[i - 1]);
                    }
                }
            }
        } else {
            assert(sums[0].sha256 == sum_of(sums, name)->0);
        }
    }
}

/// The fault of a file tells its name, and both sums where they differ.
#[verifier::rlimit(60)]
pub proof fn fault_names_the_file(here: ChecksumView, there: Seq<ChecksumView>)
    ensures
        match fault(here, there) {
            Some(m) => text::has(m, here.name) && match sum_of(there, here.name) {
                Some(s) => s != here.sha256 && text::ends(m, s) && text::has(m, here.sha256),
                None => true,
            },
            None => sum_of(there, here.name) == Some(here.sha256),
        },
{
    if let Some(s) = sum_of(there, here.name) {
        let m = "checksum mismatch for "@ + here.name + ": local="@ + here.sha256 + " remote="@ + s;
        let a = "checksum mismatch for "@.len() as int;
        let b = a + here.name.len() + ": local="@.len();
        assert(m.subrange(a, a + here.name.len()) =~= here.name);
        assert(text::occurs_at(m, here.name, a));
        assert(m.subrange(b, b + here.sha256.len()) =~= here.sha256);
        assert(text::occurs_at(m, here.sha256, b));
        assert(m.skip(m.len() - s.len()) =~= s);
    } else {
        let m = "file "@ + here.name + " missing on peer"@;
        let a = "file "@.len() as int;
        assert(m.subrange(a, a + here.name.len()) =~= here.name);
        assert(text::occurs_at(m, here.name, a));
    }
}

/// A log keeps its latest lines in their order, and drops none before it is
/// full.
pub proof fn latest_lines_are_kept(log: Seq<Seq<char>>, line: Seq<char>)
    requires
        log.len() <= 200,
    ensures
        log.len() < 200 ==> logged(log, line) == log.push(line),
        log.len() == 200 ==> logged(log, line).len() == 101,
        forall|i: int|
            0 <= i < logged(log, line).len() ==> #[trigger] logged(log, line)[i] == log.push(line)[i
                + (log.len() + 1 - logged(log, line).len())],
{
}

/// What an event tells is what the transfer then shows.
pub proof fn event_is_shown(t: TransferView, e: EventView, now: u64)
    ensures
        ({
            let then = after_event(t, e, now);
            match e {
                EventView::Progress { percent, bytes_per_sec } => then.status == t.status && (
                percent <= 255 ==> then.percent == percent) && then.bytes_per_sec == bytes_per_sec
                    && then.completed_at_epoch == t.completed_at_epoch && then.error == t.error,
                EventView::Stage { stage } => then.percent == t.percent && (match stage {
                    Some(s) => then.status == s,
                    None => then.status == t.status,
                }) && then.completed_at_epoch == t.completed_at_epoch,
                EventView::Done { total_bytes } => then.status == "done"@ && then.percent == 100
                    && then.error == t.error && (total_bytes matches Some(n)
                    ==> then.total_bytes == n) && (total_bytes is None ==> then.total_bytes
                    == t.bytes_sent),
                EventView::Failed { error } => then.status == "error"@ && then.error == error
                    && then.percent == t.percent && then.total_bytes == t.total_bytes,
                EventView::Other => then == t,
            }
        }),
{
}

/// The number that hexadecimal digits stand for.
pub open spec fn hex_value(s: Seq<char>) -> nat
    decreases s.len(),
{
    if s.len() == 0 {
        0
    } else {
        let d = if s.last() <= '9' {
            (s.last() as int - 48) as nat
        } else {
            (s.last() as int - 87) as nat
        };
        16 * hex_value(s.drop_last()) + d
    }
}

/// A number is read back out of its hexadecimal digits, so transfers of
/// different times have different names.
pub proof fn hex_reads_back(n: nat)
    ensures
        hex_value(hex_number(n)) == n,
        hex_number(n).len() > 0,
    decreases n,
{
    let h = hex_number(n);
    if n < 16 {
        assert(h.drop_last() =~= Seq::<char>::empty());
        assert(hex_value(Seq::<char>::empty()) == 0);
    } else {
        hex_reads_back(n / 16);
        assert(h.drop_last() =~= hex_number(n / 16));
        assert(n == 16 * (n / 16) + n % 16);
    }
}

/// Two transfers have the same name only where they began at the same time.
pub proof fn names_tell_times_apart(a: nat, b: nat)
    requires
        "tx-"@ + hex_number(a) == "tx-"@ + hex_number(b),
    ensures
        a == b,
{
    let x = "tx-"@ + hex_number(a);
    let y = "tx-"@ + hex_number(b);
    assert(x.skip("tx-"@.len() as int) =~= hex_number(a));
    assert(y.skip("tx-"@.len() as int) =~= hex_number(b));
    hex_reads_back(a);
    hex_reads_back(b);
}

/// What went wrong is what the error tells, and an outcome that is not waited
/// for changes nothing.
#[verifier::rlimit(60)]
pub proof fn failure_is_told(wait: Wait, outcome: OutcomeView, direction: Seq<char>, path: Seq<char>)
    ensures
        ({
            let (next, told) = course(wait, outcome, direction, path);
            &&& match (wait, outcome) {
                (Wait::Worker, OutcomeView::Queued(Some(e))) => next == Wait::Nothing && told.len()
                    == 1 && told[0].error == Some(e),
                (Wait::Peer, OutcomeView::Answered(Some(e))) => next == Wait::Nothing && told.len()
                    == 1 && (told[0].error matches Some(m) && text::ends(m, e)),
                (Wait::Group, OutcomeView::GroupFailed(e)) => next == Wait::Nothing && told.len()
                    == 1 && told[0].error == Some(e),
                (Wait::Files, OutcomeView::MoveFailed(e)) => next == Wait::Nothing && told.len()
                    == 1 && told[0].error == Some(e),
                (Wait::Sums(_), OutcomeView::VerifyFailed(e)) => next == Wait::Nothing
                    && told.len() == 1 && told[0].error == Some(e),
                (Wait::Directory, OutcomeView::Found(false)) => direction == "send"@ ==> next
                    == Wait::Nothing && told.len() == 1 && (told[0].error matches Some(m)
                    && text::ends(m, path)),
                (Wait::Probe, OutcomeView::Probed(n)) => next == Wait::Nothing <==> n <= 0,
                _ => true,
            }
            &&& forall|i: int|
                0 <= i < told.len() ==> ((#[trigger] told[i]).error is Some <==> told[i].event_type
                    == "error"@)
        }),
{
    reveal_strlit("error");
    reveal_strlit("stage");
    reveal_strlit("done");
    assert("error"@[0] == 'e' && "stage"@[0] == 's' && "done"@[0] == 'd');
    match (wait, outcome) {
        (Wait::Peer, OutcomeView::Answered(Some(e))) => {
            let m = "peer unreachable: "@ + e;
            assert(m.skip(m.len() - e.len()) =~= e);
        },
        (Wait::Directory, OutcomeView::Found(_)) => {
            let m = "model directory not found: "@ + path;
            assert(m.skip(m.len() - path.len()) =~= path);
        },
        _ => {},
    }
}

/// The device of this node is the one of its own rank.
pub proof fn rank_says_whose_device(local: Seq<char>, peer: Seq<char>)
    ensures
        by_rank(0, local, peer).0 == local,
        by_rank(0, local, peer).1 == peer,
        by_rank(1, local, peer).1 == local,
        by_rank(1, local, peer).0 == peer,
{
}

/// The address of a device is asked of the interface that it is named after;
/// none is asked of a device with another name.
pub proof fn address_is_asked_of_the_interface(port: Seq<char>, other: Seq<char>)
    ensures
        address_command("rdma_"@ + port) matches Some(c) && text::starts(c, "ifconfig "@ + port),
        !text::starts(other, "rdma_"@) ==> address_command(other) is None,
{
    let d = "rdma_"@ + port;
    assert(d.take("rdma_"@.len() as int) =~= "rdma_"@);
    assert(d.skip("rdma_"@.len() as int) =~= port);
    let head = "ifconfig "@ + port;
    let c = address_command(d)->0;
    assert(c.take(head.len() as int) =~= head);
}

/// An event is told by its type, and what it tells is read from the members of
/// their names.
pub proof fn event_is_told_by_its_type(v: serde_json::Value)
    ensures
        json::text_at(v, "type"@) == Some("progress"@) ==> (match event_in(v) {
            EventView::Progress { percent, bytes_per_sec } => percent == or_zero(
                json::number_at(v, "percent"@),
            ) && bytes_per_sec == or_zero(json::number_at(v, "bytesPerSec"@)),
            _ => false,
        }),
        json::text_at(v, "type"@) == Some("stage"@) ==> event_in(v) == (EventView::Stage {
            stage: json::text_at(v, "stage"@),
        }),
        json::text_at(v, "type"@) == Some("done"@) ==> event_in(v) == (EventView::Done {
            total_bytes: json::number_at(v, "totalBytes"@),
        }),
        json::text_at(v, "type"@) == Some("error"@) ==> event_in(v) == (EventView::Failed {
            error: json::text_at(v, "error"@),
        }),
        json::text_at(v, "type"@) is None ==> event_in(v) is Other,
        forall|n: u64| or_zero(Some(n)) == n,
{
    reveal_strlit("progress");
    reveal_strlit("stage");
    reveal_strlit("done");
    reveal_strlit("error");
    assert("progress"@[0] == 'p' && "stage"@[0] == 's' && "done"@[0] == 'd' && "error"@[0] == 'e');
}

/// A node of the shared network is read with its name and its addresses.
pub proof fn shared_node_is_read(v: serde_json::Value, name: Seq<char>, ips: Seq<serde_json::Value>)
    ensures
        json::text_at(v, "HostName"@) == Some(name) ==> tailscale_peer(v).hostname == name,
        json::items_at(v, "TailscaleIPs"@) == Some(ips) ==> tailscale_peer(v).ips
            == json::texts_in(ips),
{
}

/// A fault tells the file, what was done with it, and what was said of it.
pub proof fn fault_tells_file_and_words(verb: Seq<char>, name: Seq<char>, words: Seq<char>)
    ensures
        text::ends(file_fault(verb, name, None), name),
        text::ends(file_fault(verb, name, Some(words)), name + ": "@ + words),
        text::starts(file_fault(verb, name, Some(words)), "bulk "@ + verb),
{
    let a = file_fault(verb, name, None);
    assert(a.skip(a.len() - name.len()) =~= name);
    let b = file_fault(verb, name, Some(words));
    let tail = name + ": "@ + words;
    assert(b.skip(b.len() - tail.len()) =~= tail);
    let head = "bulk "@ + verb;
    assert(b.take(head.len() as int) =~= head);
}

/// Models are kept below the home directory.
pub proof fn models_are_kept_at_home(home: Seq<char>)
    requires
        home.len() > 0,
        home.last() != '/',
    ensures
        models_root(Some(home)) == home + "/Models"@,
        models_root(None) == "/tmp/Models"@,
{
    reveal_strlit("Models");
    reveal_strlit("/Models");
    serve::path_stands_below_directory(home, "Models"@);
    assert("Models"@[0] == 'M');
    assert(home + seq!['/'] + "Models"@ =~= home + "/Models"@);
}

/// A report of progress tells how far and how fast.
pub proof fn progress_tells_how_far(percent: u8, speed: u64, ms: u64, total: Option<u64>, name: Seq<char>)
    ensures
        progress_event(percent, speed).event_type == "progress"@,
        progress_event(percent, speed).percent == Some(percent),
        progress_event(percent, speed).bytes_per_sec == Some(speed),
        done_event(ms, total).event_type == "done"@,
        done_event(ms, total).duration_ms == Some(ms),
        done_event(ms, total).total_bytes == total,
        stage_event(name).event_type == "stage"@,
        stage_event(name).stage == Some(name),
        error_event(name).error == Some(name),
{
}

} // verus!
