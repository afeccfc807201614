//! Transfers between nodes: their course, their devices and addresses, the
//! frames on the wire and the sums of files.

use asmi::digest::{to_hex, FileHash};
use asmi::topology::TopologyLink;
use asmi::transfer::{
    accept_devices, accept_key, accept_request, accept_url, build_address_command, check_accept,
    check_direction, check_files, check_size, compare_sums, coordinator_address, device_pair,
    devices_for_peer, devices_path, fallback_port, judge_direction, judge_preflight, model_path,
    no_group, peer_host, read_event, read_tailscale, resolve_peer_lan, resolve_peer_tailscale,
    speed, sse_document, sse_line, told_percent, total_size, transfer_id, validated_device,
    FileChecksum, FileEntry, FileFault, FileRun, GroupStep, GroupTable, Outcome, Pipeline,
    SseEvent, TransferEvent, TransferRequest, TransferState, Wait,
};
use asmi::wire::{
    check_length, frame, read_u64, unframe, write_u64, BulkFile, BULK_CHUNK, FRAME_ROOM,
};

fn text(s: &str) -> String {
    s.to_string()
}

fn request() -> TransferRequest {
    TransferRequest { model_dir: text("Qwen"), peer: text("m3u3"), direction: text("send") }
}

fn started() -> TransferState {
    TransferState::started(&request(), text("tx-1"), text("send"), 100)
}

#[test]
fn directions() {
    assert_eq!(check_direction("SEND"), Ok(text("send")));
    assert_eq!(check_direction("recv"), Ok(text("recv")));
    assert_eq!(check_direction("both"), Err(text("direction must be 'send' or 'recv'")));
    assert!(judge_direction("Send").is_err());
}

#[test]
fn ids_are_hexadecimal() {
    assert_eq!(transfer_id(0), "tx-0");
    assert_eq!(transfer_id(255), "tx-ff");
    assert_eq!(transfer_id(0x19a_bcde_f012), "tx-19abcdef012");
}

#[test]
fn places_of_models() {
    let home = Some(text("/Users/ma"));
    assert_eq!(model_path(&home, "Qwen"), "/Users/ma/Models/Qwen");
    assert_eq!(model_path(&None, "Qwen"), "/tmp/Models/Qwen");
    assert_eq!(model_path(&home, "/abs"), "/abs");
}

#[test]
fn preflight_tells_what_is_missing() {
    assert!(judge_preflight(1).is_ok());
    assert_eq!(
        judge_preflight(0),
        Err(text("PD exhausted — reboot required (shutdown -h, wait 10s)"))
    );
    assert_eq!(
        judge_preflight(-1),
        Err(text("RDMA not available on this host (no libibverbs)"))
    );
}

#[test]
fn lines_of_the_event_stream_are_read_back() {
    let line = sse_line("{\"type\":\"done\"}");
    assert_eq!(line, "data: {\"type\":\"done\"}\n\n");
    assert_eq!(sse_document(&line), Some(text("{\"type\":\"done\"}")));
    assert_eq!(sse_document("data: x"), None);
    assert_eq!(sse_document("x\n\n"), None);
    assert_eq!(sse_document("data: \n\n"), Some(text("")));
}

#[test]
fn events_change_the_state() {
    let mut t = started();
    let line = sse_line(r#"{"type":"progress","percent":42,"bytesPerSec":1000}"#);
    let event = read_event(&line);
    assert!(matches!(event, Some(TransferEvent::Progress { percent: 42, bytes_per_sec: 1000 })));
    t.take_line(line.clone(), event, 101);
    assert_eq!((t.percent, t.bytes_per_sec), (42, 1000));
    assert_eq!(t.log.len(), 2);
    assert_eq!(
        t.log[0],
        "data: {\"type\":\"stage\",\"stage\":\"_raw\",\"transport\":\"jaccl-rdma\"}\n\n"
    );
    assert_eq!(t.log[1], line);

    let stage = sse_line(r#"{"type":"stage","stage":"verify"}"#);
    let e = read_event(&stage);
    t.take_line(stage, e, 102);
    assert_eq!(t.status, "verify");

    let done = sse_line(r#"{"type":"done","totalBytes":7}"#);
    let e = read_event(&done);
    t.take_line(done, e, 103);
    assert_eq!(t.status, "done");
    assert_eq!((t.percent, t.total_bytes, t.completed_at_epoch), (100, 7, Some(103)));
    let (lines, over) = t.tail(4);
    assert_eq!(lines.len(), 2);
    assert!(over);
}

#[test]
fn a_failure_is_told_with_its_text() {
    let mut t = started();
    let line = sse_line(r#"{"type":"error","error":"boom"}"#);
    let e = read_event(&line);
    t.take_line(line, e, 9);
    assert_eq!(t.status, "error");
    assert_eq!(t.error.as_deref(), Some("boom"));
    assert_eq!(t.completed_at_epoch, Some(9));
    assert!(read_event("data: not json\n\n").is_none());
    assert!(matches!(
        read_event("data: {\"type\":\"else\"}\n\n"),
        Some(TransferEvent::Other)
    ));
}

#[test]
fn a_percentage_beyond_a_byte_is_cut() {
    let mut t = started();
    t.apply(TransferEvent::Progress { percent: 300, bytes_per_sec: 1 }, 0);
    assert_eq!(t.percent, 44);
}

#[test]
fn the_log_stays_short() {
    let mut t = started();
    for i in 0..500 {
        t.push_log(format!("{i}"));
        assert!(t.log.len() <= 200);
    }
    assert_eq!(t.log.last().map(|s| s.as_str()), Some("499"));
}

#[test]
fn a_transfer_runs_its_course() {
    let (mut p, first) = Pipeline::begin(text("send"), text("/m/x"));
    assert_eq!(first[0].stage.as_deref(), Some("preflight"));
    let outcomes = vec![
        Outcome::Probed(1),
        Outcome::Found(true),
        Outcome::Resolved,
        Outcome::Queued(None),
        Outcome::Answered(None),
        Outcome::GroupMade,
        Outcome::Moved(11),
        Outcome::Verified(5),
    ];
    let mut stages: Vec<String> = Vec::new();
    let mut last = None;
    for o in &outcomes {
        for e in p.go_on(o) {
            if let Some(s) = &e.stage {
                stages.push(s.clone());
            }
            last = Some(e);
        }
    }
    assert_eq!(stages, vec!["coordinate", "init", "transfer", "verify", "verified"]);
    let last = last.unwrap();
    assert_eq!(last.event_type, "done");
    assert_eq!((last.total_bytes, last.duration_ms), (Some(11), Some(5)));
    assert_eq!(p.waiting(), Wait::Nothing);
    assert!(p.go_on(&Outcome::Resolved).is_empty());
}

#[test]
fn each_failure_ends_a_transfer() {
    let fail = |steps: Vec<Outcome>, direction: &str| -> Option<String> {
        let (mut p, _) = Pipeline::begin(text(direction), text("/m/x"));
        let mut error = None;
        for o in &steps {
            for e in p.go_on(o) {
                if e.event_type == "error" {
                    error = e.error;
                }
            }
        }
        assert_eq!(p.waiting(), Wait::Nothing);
        error
    };
    let missing = fail(vec![Outcome::Probed(1), Outcome::Found(false)], "send");
    assert_eq!(missing.as_deref(), Some("model directory not found: /m/x"));
    let to_peer = |o: Outcome| {
        vec![
            Outcome::Probed(1),
            Outcome::Found(false),
            Outcome::Resolved,
            Outcome::Queued(None),
            o,
        ]
    };
    let peer = fail(to_peer(Outcome::Answered(Some(text("503")))), "recv");
    assert_eq!(peer.as_deref(), Some("peer unreachable: 503"));
    let mut lost = to_peer(Outcome::Answered(None));
    lost.push(Outcome::ReplyLost);
    assert_eq!(fail(lost, "recv").as_deref(), Some("jaccl worker dropped reply channel"));
    let mut group = to_peer(Outcome::Answered(None));
    group.push(Outcome::GroupFailed(text("no group")));
    assert_eq!(fail(group, "recv").as_deref(), Some("no group"));
    let mut moved = to_peer(Outcome::Answered(None));
    moved.push(Outcome::GroupMade);
    moved.push(Outcome::MoveFailed(text("cut")));
    assert_eq!(fail(moved, "recv").as_deref(), Some("cut"));
    let mut sums = to_peer(Outcome::Answered(None));
    sums.push(Outcome::GroupMade);
    sums.push(Outcome::Moved(1));
    sums.push(Outcome::VerifyFailed(text("differs")));
    assert_eq!(fail(sums, "recv").as_deref(), Some("differs"));
    let queued = vec![
        Outcome::Probed(1),
        Outcome::Found(true),
        Outcome::Resolved,
        Outcome::Queued(Some(text("jaccl worker thread is dead"))),
    ];
    assert_eq!(fail(queued, "send").as_deref(), Some("jaccl worker thread is dead"));
    assert!(fail(vec![Outcome::Probed(0)], "send").is_some());
}

#[test]
fn events_that_are_told() {
    let s = SseEvent::stage("init");
    assert_eq!((s.event_type.as_str(), s.transport.as_deref()), ("stage", Some("jaccl-rdma")));
    let p = SseEvent::progress(told_percent(100), speed(10, 4));
    assert_eq!((p.percent, p.bytes_per_sec), (Some(99), Some(2)));
    assert_eq!(p.transport, None);
    assert_eq!(speed(10, 0), 0);
    assert_eq!(told_percent(98), 98);
    assert_eq!(SseEvent::error("x").error.as_deref(), Some("x"));
    assert_eq!(SseEvent::done(3, None).duration_ms, Some(3));
}

fn link(a: &str, da: &str, b: &str, db: &str) -> TopologyLink {
    TopologyLink {
        node_a: text(a),
        device_a: text(da),
        node_b: text(b),
        device_b: text(db),
    }
}

#[test]
fn devices_of_the_first_link() {
    let links = vec![
        link("hub", "rdma_en4", "m3u2", "rdma_en5"),
        link("m3u3", "rdma_en3", "hub", "rdma_en6"),
    ];
    assert_eq!(
        devices_for_peer(&links, "hub", "m3u3"),
        Some((text("rdma_en6"), text("rdma_en3")))
    );
    assert_eq!(devices_for_peer(&links, "hub", "m3u9"), None);
    let names = vec![link("hub", "iface:en4", "m3u2", "rdma_en5")];
    assert_eq!(devices_for_peer(&names, "hub", "m3u2"), None);
    let d = Some((text("a"), text("b")));
    assert_eq!(accept_devices(d.clone(), 1), d);
    assert_eq!(accept_devices(d, 0), None);
    assert_eq!(validated_device(&Some(text("a")), -1), None);
    assert_eq!(validated_device(&Some(text("a")), 1), Some(text("a")));
}

#[test]
fn both_ends_write_the_same_devices() {
    let here = device_pair(0, "rdma_en4", "rdma_en5");
    let there = device_pair(1, "rdma_en5", "rdma_en4");
    assert_eq!((here.rank0.as_str(), here.rank1.as_str()), ("rdma_en4", "rdma_en5"));
    assert_eq!((there.rank0, there.rank1), (here.rank0, here.rank1));
    assert_eq!(devices_path(12), "/tmp/jaccl-devices-12.json");
}

#[test]
fn the_other_node_is_asked_with_its_device() {
    let devices = Some((text("rdma_en4"), text("rdma_en5")));
    let r = accept_request("Qwen", "192.168.10.1", 50000, &devices);
    assert_eq!(r.peer_device.as_deref(), Some("rdma_en5"));
    assert_eq!(r.coordinator_device.as_deref(), Some("rdma_en4"));
    assert_eq!((r.rank, r.size, r.coordinator_port), (1, 2, 50000));
    assert!(check_accept(&r).is_ok());
    let empty = accept_request("", "192.168.10.1", 1, &None);
    assert_eq!(check_accept(&empty), Err(text("model_dir and coordinator_ip required")));
}

#[test]
fn addresses_of_nodes() {
    assert_eq!(
        build_address_command("rdma_en4").as_deref(),
        Some("ifconfig en4 | grep 'inet ' | grep -v '127\\|169.254' | awk '{print $2}' | head -1")
    );
    assert_eq!(build_address_command("en4"), None);
    assert_eq!(coordinator_address(&Some(text("a\n")), Some(text("b"))), "a");
    assert_eq!(coordinator_address(&Some(text("\n")), Some(text("b"))), "b");
    assert_eq!(coordinator_address(&None, Some(text("b"))), "b");
    assert_eq!(coordinator_address(&None, None), "127.0.0.1");
    assert_eq!(peer_host(None, None, None, "m3u3"), "m3u3.local");
    assert_eq!(peer_host(None, Some(text("m")), Some(text("t")), "m3u3"), "m");
    assert_eq!(accept_url("h"), "http://h:9090/transfer/accept");
    let hosts = "# comment\n192.168.10.2 m3u3\n10.0.0.7 other M3U3.local\n10.0.0.8 m3u3\n";
    assert_eq!(resolve_peer_lan(hosts, "m3u3").as_deref(), Some("10.0.0.7"));
    assert_eq!(resolve_peer_lan(hosts, "m3u4"), None);
    let status = r#"{"Peer":{"k1":{"HostName":"X"},"k2":{"HostName":"M3U3","TailscaleIPs":["fd7a::1","100.64.0.9"]}}}"#;
    let peers = read_tailscale(status);
    assert_eq!(resolve_peer_tailscale(&peers, "m3u3").as_deref(), Some("100.64.0.9"));
    assert_eq!(resolve_peer_tailscale(&peers, "x"), None);
    assert!(read_tailscale("not json").is_empty());
}

#[test]
fn the_port_without_the_system() {
    assert_eq!(fallback_port(1234), 49434);
    assert_eq!(fallback_port(u32::MAX), 49199);
    for pid in [0u32, 999, 1000, 0x7fff_ffff, 0x8000_0000, 4_000_000_000] {
        assert_eq!(fallback_port(pid), 49200 + (pid as i32 % 1000));
    }
}

#[test]
fn groups_are_used_again() {
    let mut g = GroupTable::new();
    assert_eq!(g.decide("m3u3", false), GroupStep::Make);
    g.record("m3u3", 5);
    g.record("m3u2", 6);
    assert_eq!(g.decide("m3u3", true), GroupStep::Reuse(5));
    assert_eq!(g.decide("m3u3", false), GroupStep::Replace);
    g.record("m3u3", 7);
    assert_eq!(g.port("m3u3"), Some(7));
    g.remove("m3u3");
    assert_eq!(g.port("m3u3"), None);
    assert_eq!(g.port("m3u2"), Some(6));
    assert_eq!(no_group("m3u3"), "no JACCL group for peer 'm3u3'");
    assert_eq!(accept_key("Qwen"), "accept:Qwen");
}

fn files(sizes: &[u64]) -> Vec<FileEntry> {
    sizes
        .iter()
        .enumerate()
        .map(|(i, s)| FileEntry { name: format!("f{i}"), size: *s })
        .collect()
}

#[test]
fn files_go_one_after_the_other() {
    let list = files(&[5, 0, 7]);
    assert!(check_files(&list).is_ok());
    assert_eq!(check_files(&vec![]), Err(text("no files in model directory")));
    assert_eq!(total_size(&list), Some(12));
    assert_eq!(total_size(&files(&[u64::MAX, 1])), None);
    let mut run = FileRun::new(&list);
    let mut seen: Vec<String> = Vec::new();
    while let Some((name, _)) = run.next_file() {
        seen.push(name);
        run.record();
    }
    assert_eq!(seen, vec!["f0", "f1", "f2"]);
    assert_eq!(run.total_moved(), 12);
    let run = FileRun::new(&list);
    assert_eq!(run.so_far(3), 3);
    assert_eq!(FileFault::Lost.to_text("send", "f0"), "worker dropped reply for f0");
    assert_eq!(FileFault::Said(text("cut")).to_text("recv", "f0"), "bulk recv f0: cut");
    assert!(check_size(3, 3).is_ok());
    assert_eq!(
        check_size(3, 4),
        Err(text("file size mismatch: manifest says 3, wire says 4"))
    );
}

fn sums(pairs: &[(&str, &str)]) -> Vec<FileChecksum> {
    pairs.iter().map(|p| FileChecksum { name: text(p.0), sha256: text(p.1) }).collect()
}

#[test]
fn sums_are_compared_by_name() {
    let here = sums(&[("a", "1"), ("b", "2")]);
    assert!(compare_sums(&here, &sums(&[("b", "2"), ("a", "1"), ("c", "3")])).is_ok());
    assert_eq!(
        compare_sums(&here, &sums(&[("a", "1"), ("b", "9")])),
        Err(text("checksum mismatch for b: local=2 remote=9"))
    );
    assert_eq!(
        compare_sums(&here, &sums(&[("a", "1")])),
        Err(text("file b missing on peer"))
    );
}

#[test]
fn files_are_hashed_in_pieces() {
    let mut h = FileHash::new();
    assert!(h.push(&b"ab".to_vec()));
    assert!(h.push(&b"c".to_vec()));
    assert_eq!(
        h.finish(),
        "ba7816bf8f01cfea414140de5dae2223b00361a396177a9cb410ff61f20015ad"
    );
    assert_eq!(
        FileHash::new().finish(),
        "e3b0c44298fc1c149afbf4c8996fb92427ae41e4649b934ca495991b7852b855"
    );
    assert_eq!(to_hex(&vec![0, 15, 255]), "000fff");
}

#[test]
fn documents_are_framed() {
    assert_eq!(write_u64(258), vec![2, 1, 0, 0, 0, 0, 0, 0]);
    assert_eq!(read_u64(&write_u64(u64::MAX)), u64::MAX);
    let doc = b"{\"files\":[]}".to_vec();
    let f = frame(&doc);
    assert_eq!(f.body.len(), FRAME_ROOM);
    assert!(check_length(&f.length, &f.body));
    assert_eq!(unframe(&f.length, &f.body), doc);
    let long = vec![1u8; FRAME_ROOM + 1];
    let f = frame(&long);
    assert!(!check_length(&f.length, &f.body));
}

#[test]
fn files_go_in_chunks() {
    let mut f = BulkFile::new(BULK_CHUNK * 2 + 5);
    let mut chunks: Vec<u64> = Vec::new();
    while let Some(n) = f.next_chunk() {
        chunks.push(n);
        f.advance();
    }
    assert_eq!(chunks, vec![BULK_CHUNK, BULK_CHUNK, 5]);
    assert_eq!(f.offset(), BULK_CHUNK * 2 + 5);
    assert_eq!(BulkFile::new(0).next_chunk(), None);
}
