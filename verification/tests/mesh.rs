//! The mesh: its health, its configuration, and how it is set up.

use asmi::autosetup::{
    addresses_set, assigns_topology, bridge_members, build_clear_command, local_names,
    canonical_host, links_part, build_hostfile_nodes, build_remote_command, build_route_commands, build_set_command,
    coordinator_ip, coordinator_of, current_address, first_link_local, hardware_address,
    hosts_override, interface_status, ip_source, latency_text, link_local_ip,
    persist_coordinator_ips, plan_addresses, poisoned_entries, probe_list, read_hosts,
    second_link_local, setup_hosts, subnet30, tb_interfaces, AutosetupReport, Bridge0Result,
    InterfaceIp, IpSource, LinkLocalStep, ProbeRun, RdmaSettings, RouteResult, SetAddress,
    StableScan,
};
use asmi::admin::read_hermes;
use asmi::bench::read_count;
use asmi::cli::{choose_release, deploy_targets, read_uptime, release_candidates};
use asmi::health::{
    active_ifaces, arp_peers, check_url, counts_fit, device_budget, device_limits, device_names,
    judge_mesh, judge_node, ping_targets, reachable_ips, read_budget, read_interfaces, read_probe,
    read_report, remote_nodes, DeviceBudget, IfaceIp, NodeCheck, PingResult, RdmaDevice,
};
use asmi::hostfile::PeerAddress;
use asmi::jaccl::{
    action_name, build_matrix, build_path, choose_source, config_from_store,
    config_from_topology, count_hosts, expand_tilde, keep_requested, target_nodes, wants_write, write_hostfile,
    HostfileSource, StoredHosts,
};
use asmi::json::parse;
use asmi::models::{listed_models, read_inventory};
use asmi::numeral::writes_number;
use asmi::rdma::deterministic_link_ips;
use asmi::startup::read_seeds;
use asmi::topology::{
    can_report, choose_config, config_candidates, TopologyLink, TopologyReport,
};

fn text(s: &str) -> String {
    s.to_string()
}

fn texts(names: &[&str]) -> Vec<String> {
    names.iter().map(|n| n.to_string()).collect()
}

fn link(a: &str, da: &str, b: &str, db: &str) -> TopologyLink {
    TopologyLink {
        node_a: text(a),
        device_a: text(da),
        node_b: text(b),
        device_b: text(db),
    }
}

fn report(nodes: &[&str], links: Vec<TopologyLink>, subsets: Vec<Vec<String>>) -> TopologyReport {
    TopologyReport {
        nodes: texts(nodes),
        links,
        mesh_complete: false,
        missing_links: vec![],
        jaccl_ready: false,
        jaccl_ready_subsets: subsets,
        raw_dot: String::new(),
    }
}

const IFCONFIG: &str = "lo0: flags=8049<UP>\n\tinet 127.0.0.1 netmask 0xff000000\nen3: flags=8863<UP>\n\tether 0a:00:00:00:00:01\n\tinet 169.254.1.1 netmask 0xffff0000\n\tstatus: active\nen4: flags=8863<UP>\n\tinet 192.168.10.1 netmask 0xfffffffc\nbridge0: flags=8863<UP>\n\tinet 192.168.2.1 netmask 0xffffff00\n\tmember: en1 flags=3<LEARNING>\n";

#[test]
fn interfaces_are_read() {
    let i = read_interfaces(IFCONFIG);
    let own: Vec<(&str, &str)> =
        i.link_local.iter().map(|x| (x.iface.as_str(), x.ip.as_str())).collect();
    assert_eq!(own, vec![("en3", "169.254.1.1"), ("en4", "192.168.10.1")]);
    assert_eq!(i.bridges.len(), 1);
    assert_eq!(i.members, texts(&["en1"]));
    assert!(i.bridge0_blocking());
}

#[test]
fn targets_of_pings() {
    let devices = vec![
        RdmaDevice { name: text("rdma_en3"), port_state: text("Active") },
        RdmaDevice { name: text("rdma_en4"), port_state: text("Down") },
    ];
    let active = active_ifaces(&devices);
    assert_eq!(active, texts(&["en3"]));
    let own = read_interfaces(IFCONFIG).link_local;
    let arp = "? (169.254.1.2) at 0a:1:1:1:1:1 on en3 ifscope [ethernet]\n? (169.254.9.9) at 0a:1:1:1:1:2 on en4 ifscope [ethernet]\n? (169.254.1.1) at 0a:1:1:1:1:3 on en3 ifscope [ethernet]\n? (169.254.1.3) at (incomplete) on en3 ifscope [ethernet]\n";
    let t = ping_targets(&texts(&["192.168.10.2", "169.254.1.1"]), arp, &own, &active);
    let got: Vec<(&str, &str)> = t.iter().map(|x| (x.ip.as_str(), x.iface.as_str())).collect();
    assert_eq!(got, vec![("192.168.10.2", "nodemap"), ("169.254.1.2", "en3")]);
    let peers: Vec<IfaceIp> = arp_peers(arp);
    assert_eq!(peers.len(), 3);
}

fn ping(ip: &str, reachable: bool) -> PingResult {
    PingResult { ip: text(ip), interface: text("en3"), reachable, latency: None }
}

#[test]
fn health_of_a_node() {
    let pings = vec![ping("a", true), ping("b", false)];
    assert_eq!(reachable_ips(&pings), texts(&["a"]));
    let h = judge_node(2, &pings, 1);
    assert!(!h.healthy);
    assert_eq!(h.summary, "2 RDMA devices active, 1/2 peers reachable, 1 bridges");
    assert!(judge_node(1, &vec![ping("a", true)], 0).healthy);
    assert!(!judge_node(0, &vec![ping("a", true)], 0).healthy);
    assert!(!judge_node(1, &vec![], 0).healthy);
}

#[test]
fn health_of_the_mesh() {
    let body = r#"{"healthy":true,"rdma_active_count":2,"peers_reachable":3,"peers_total":3}"#;
    let c = read_report(body).unwrap().check;
    assert_eq!(c, NodeCheck { healthy: true, active: 2, reachable: 3, total: 3 });
    assert_eq!(
        read_report("{}").unwrap().check,
        NodeCheck { healthy: false, active: 0, reachable: 0, total: 0 }
    );
    assert!(read_report("not json").is_none());
    let checks = vec![Some(c), None];
    assert!(counts_fit(&checks));
    let m = judge_mesh(&checks, 3);
    assert!(m.healthy);
    assert_eq!(
        m.summary,
        "1/3 nodes healthy, 2 RDMA devices active, 3/3 peer links verified"
    );
    assert_eq!(m.nodes_online, 1);
    assert!(!judge_mesh(&vec![None], 1).healthy);
    assert_eq!(remote_nodes(&texts(&["hub", "m3u2"]), "hub"), texts(&["m3u2"]));
    assert_eq!(check_url("m3u2"), "http://m3u2.local:9090/rdma/check");
}

#[test]
fn limits_of_devices() {
    let out = "hca_id:\trdma_en3\n\tmax_pd:\t\t4\n\tmax_qp:\t\t7\nhca_id:\trdma_en4\n\tmax_mr:\t\tx\n";
    let d = device_limits(out);
    assert_eq!(d.len(), 2);
    assert_eq!((d[0].name.as_str(), d[0].max_pd, d[0].max_qp, d[0].max_mr), ("rdma_en3", 4, 7, 0));
    assert_eq!(d[1].max_mr, 0);
    assert_eq!(device_names(out), texts(&["rdma_en3", "rdma_en4"]));
}

#[test]
fn limits_stand_in_for_a_probe() {
    let devinfo = Some(text("hca_id:\trdma_en3\n\tmax_pd:\t\t4\n"));
    let found = read_budget(&Some(text(r#"{"devices":[{"pd_free":2}]}"#)), &devinfo);
    assert_eq!(found.probe(), "asmi-pd-probe");
    match found {
        DeviceBudget::Probed(doc) => {
            assert_eq!(doc["devices"][0]["pd_free"].as_u64(), Some(2));
        }
        DeviceBudget::Limits(_) => panic!("there is a document"),
    }
    for probe in [None, Some(text("no devices"))] {
        let found = read_budget(&probe, &devinfo);
        assert_eq!(found.probe(), "ibv_devinfo-fallback");
        match found {
            DeviceBudget::Limits(all) => {
                assert_eq!(all.len(), 1);
                assert_eq!((all[0].name.as_str(), all[0].max_pd), ("rdma_en3", 4));
            }
            DeviceBudget::Probed(_) => panic!("there is no document"),
        }
    }
    assert!(matches!(device_budget(None, &None), DeviceBudget::Limits(all) if all.is_empty()));
    assert!(read_probe(&Some(text("{}"))).is_some());
    assert!(read_probe(&None).is_none());
}

#[test]
fn parts_of_documents() {
    let settings = parse(r#"{"rdma":{"auto_setup":false}}"#).unwrap();
    assert_eq!(links_part(&settings).unwrap()["auto_setup"].as_bool(), Some(false));
    assert!(links_part(&parse("{}").unwrap()).is_none());
    let file = Some(text(r#"{"nodes":["hub",7,"m3u2"]}"#));
    assert_eq!(read_seeds(&file), texts(&["hub", "m3u2"]));
    assert!(read_seeds(&Some(text("no"))).is_empty());
    assert!(read_seeds(&None).is_empty());
    let list = read_inventory(r#"{"models":[{"name":"a"}]}"#).unwrap();
    assert_eq!(listed_models(&list).unwrap().len(), 1);
    assert!(read_inventory(r#"{"models":1}"#).is_none());
    assert!(read_inventory("no").is_none());
    assert_eq!(read_hermes(r#"{"pid":7}"#).unwrap()["pid"].as_u64(), Some(7));
    let e = read_hermes("no").unwrap_err();
    assert_eq!(e.status(), 500);
    assert!(e.message().contains("hermes /health not JSON: "));
    assert_eq!(read_uptime(r#"{"uptime_secs":61}"#), Some(61));
    assert_eq!(read_uptime("{}"), Some(0));
    assert_eq!(read_uptime("no"), None);
    assert_eq!(read_count(&Some(text(" 12\n"))), 12);
    assert_eq!(read_count(&Some(text("many"))), 0);
}

#[test]
fn places_of_the_program() {
    let all = release_candidates(&Some(text("/t/debug")), &Some(text("/t")), &Some(text("/b/asmi\n")));
    assert_eq!(all, texts(&["/t/debug/asmi", "/t/release/asmi", "/b/asmi"]));
    assert!(release_candidates(&None, &None, &None).is_empty());
    assert_eq!(choose_release(None, "/Users/ma"), "/Users/ma/.cargo/bin/asmi");
    assert_eq!(choose_release(Some(text("/b/asmi")), "/Users/ma"), "/b/asmi");
    let known = texts(&["hub", "m3u2", "m3u3"]);
    assert_eq!(deploy_targets(&known, &None, "hub"), texts(&["m3u2", "m3u3"]));
    assert_eq!(deploy_targets(&known, &Some(text("m3u3")), "hub"), texts(&["m3u3"]));
    assert!(deploy_targets(&known, &Some(text("hub")), "hub").is_empty());
    assert_eq!(config_candidates()[0], "/opt/homebrew/bin/mlx.distributed_config");
    assert_eq!(choose_config(None, &Some(text("/x\n"))).unwrap(), "/x");
    assert_eq!(choose_config(Some(text("/y")), &Some(text("/x"))).unwrap(), "/y");
    assert!(choose_config(None, &Some(text("\n"))).is_err());
    assert!(choose_config(None, &None).is_err());
    assert!(!can_report(0));
    assert!(can_report(5));
    assert!(!can_report(usize::MAX));
}

#[test]
fn the_configuration_of_a_session() {
    let links = vec![link("hub", "rdma_en4", "m3u2", "en5"), link("m3u3", "en3", "hub", "en6")];
    let subsets = vec![texts(&["hub", "m3u2"]), texts(&["hub", "m3u2", "m3u3"])];
    assert_eq!(target_nodes(&texts(&["x"]), &subsets), texts(&["hub", "m3u2", "m3u3"]));
    assert_eq!(target_nodes(&texts(&["x"]), &vec![]), texts(&["x"]));
    let m = build_matrix(&texts(&["hub", "m3u2", "m3u3"]), &links);
    assert_eq!(m[0].rdma, vec![None, Some(text("rdma_en4")), Some(text("rdma_en6"))]);
    assert_eq!(m[1].rdma, vec![Some(text("rdma_en5")), None, None]);
    let kept = keep_requested(&vec![Some(text("m3u2")), None, Some(text("hub"))], &Some(text("m3")));
    assert_eq!(kept, vec![0]);
    let r = report(&["hub", "m3u2"], links, vec![]);
    let c = config_from_topology(&r, &Some(text("m3u2"))).unwrap();
    assert_eq!(c.len(), 1);
    let none = report(&["hub"], vec![], vec![]);
    assert_eq!(config_from_topology(&none, &None).unwrap_err().status(), 404);
}

#[test]
fn the_stored_configuration() {
    match config_from_store(1, r#"[{"ssh":"hub"},{"ssh":"m3u2"}]"#, &Some(text("m3"))) {
        Ok(c) => {
            assert_eq!(c.hosts.count(), 1);
            assert_eq!(c.document[1]["ssh"].as_str(), Some("m3u2"));
            assert!(matches!(c.hosts, StoredHosts::Kept(k) if k == vec![1]));
        }
        _ => panic!("one host is kept"),
    }
    assert!(config_from_store(0, "[]", &None).is_err());
    assert!(config_from_store(1, "[]", &None).is_err());
    assert!(config_from_store(1, "not json", &None).is_err());
    assert!(choose_source(&None, 0).is_err());
    assert!(matches!(choose_source(&None, 1), Ok(HostfileSource::Stored)));
    let r = Some(report(&["hub", "m3u2"], vec![link("hub", "en4", "m3u2", "en5")], vec![]));
    assert!(matches!(choose_source(&r, 0), Ok(HostfileSource::Live(_))));
    assert_eq!(count_hosts(r#"[{},{}]"#).unwrap().1, 2);
    let (doc, _) = count_hosts(r#"[{"ssh":"hub"}]"#).unwrap();
    assert_eq!(write_hostfile(&doc), "[\n  {\n    \"ssh\": \"hub\"\n  }\n]");
    assert!(count_hosts("[]").is_err());
    assert!(wants_write(&parse(r#"{"write":true}"#).unwrap()));
    assert!(!wants_write(&parse("{}").unwrap()));
    assert_eq!(build_path(3), "~/hostfile-jaccl-3node.json");
    assert_eq!(expand_tilde("~/x", "/Users/ma"), "/Users/ma/x");
    assert_eq!((action_name(true).as_str(), action_name(false).as_str()), ("generate", "discover"));
}

#[test]
fn hosts_of_the_setup() {
    assert_eq!(
        read_hosts(&parse(r#"{"hosts":["hub",3,"m3u2"]}"#)),
        Some(texts(&["hub", "m3u2"]))
    );
    assert_eq!(read_hosts(&parse(r#"{"hosts":[]}"#)), None);
    assert_eq!(read_hosts(&parse("{}")), None);
    assert_eq!(read_hosts(&None), None);
    assert_eq!(hosts_override(Some(vec![])), None);
    assert_eq!(setup_hosts(&None, &vec![], &texts(&["a"])), texts(&["a"]));
    assert_eq!(setup_hosts(&None, &texts(&["k"]), &texts(&["a"])), texts(&["k"]));
    assert_eq!(coordinator_of(&texts(&["m3u2", "hub"])).as_deref(), Some("hub"));
    assert!(assigns_topology(&Some(text("hub")), "hub", 2));
    assert_eq!(ip_source(0, 0), IpSource::LinkLocal);
    assert_eq!(ip_source(0, 1), IpSource::Static);
    assert_eq!(ip_source(2, 1), IpSource::Topology);
    assert_eq!(local_names(&texts(&["a", "b.lan"])), texts(&["a.local", "b.lan"]));
}

fn ip(iface: &str, ip: &str) -> InterfaceIp {
    InterfaceIp { iface: text(iface), ip: text(ip), source: text("topology") }
}

#[test]
fn addresses_are_kept_and_return() {
    let ips = vec![ip("en4", "192.168.10.1"), ip("en3", "192.168.10.5"), ip("en5", "192.168.10.9")];
    let kept = persist_coordinator_ips(&ips);
    assert_eq!(kept.len(), 3);
    assert_eq!(kept[1].iface, "en3");
    assert_eq!(kept[1].ip, "192.168.10.5");
    assert_eq!(kept[1].mask, "255.255.255.252");
    let back = addresses_set(&kept, &vec![true, false, true], "persisted");
    let got: Vec<(&str, &str, &str)> = back
        .iter()
        .map(|x| (x.iface.as_str(), x.ip.as_str(), x.source.as_str()))
        .collect();
    assert_eq!(
        got,
        vec![("en4", "192.168.10.1", "persisted"), ("en5", "192.168.10.9", "persisted")]
    );
}

#[test]
fn addresses_are_set() {
    assert_eq!(subnet30("192.168.10.6").as_deref(), Some("192.168.10.4/30"));
    assert_eq!(subnet30("192.168.10"), None);
    assert_eq!(
        build_set_command("en4", "1.2.3.4", "m"),
        texts(&["sudo", "ifconfig", "en4", "inet", "1.2.3.4", "netmask", "m"])
    );
    assert_eq!(build_clear_command("en4", "a", &Some(text("a"))), None);
    assert_eq!(
        build_clear_command("en4", "a", &Some(text("b"))),
        Some(texts(&["sudo", "ifconfig", "en4", "delete", "b"]))
    );
    let routes = build_route_commands("en4", "192.168.10.6");
    assert_eq!(routes[0][4], "192.168.10.4/30");
    assert_eq!(routes[1][6], "en4");
    assert!(build_route_commands("en4", "x").is_empty());
    assert!(build_remote_command("en4", "192.168.10.6").contains("192.168.10.4/30"));
    let r = report(&["hub", "m3u2"], vec![link("hub", "en4", "m3u2", "en5")], vec![]);
    let steps = plan_addresses(&deterministic_link_ips(&r), "hub", true);
    assert_eq!(steps.len(), 2);
    assert!(matches!(&steps[0], SetAddress::Here { ip, .. } if ip == "192.168.10.1"));
    assert!(matches!(&steps[1], SetAddress::There { node, .. } if node == "m3u2"));
    let alone = plan_addresses(&deterministic_link_ips(&r), "m3u2", false);
    assert_eq!(alone.len(), 1);
}

#[test]
fn outputs_of_the_system() {
    assert_eq!(bridge_members("\tmember: en1 flags=3\n\tmember: en2 flags=3\n"), texts(&["en1", "en2"]));
    let out = "Hardware Port: Thunderbolt 2\nDevice: en2\nEthernet Address: x\n";
    let ifaces = tb_interfaces(out);
    assert_eq!((ifaces[0].name.as_str(), ifaces[0].index), ("en2", 2));
    assert_eq!(interface_status("\tstatus: active\n"), "active");
    assert_eq!(link_local_ip("\tinet 169.254.3.4 netmask x\n").as_deref(), Some("169.254.3.4"));
    assert_eq!(
        hardware_address("\tether 0a:00:00:00:00:01\n").as_deref(),
        Some("0a:00:00:00:00:01")
    );
    assert_eq!(current_address("\tinet 10.0.0.1 netmask x\n").as_deref(), Some("10.0.0.1"));
    assert_eq!(latency_text("64 bytes: time=0.123 ms\n").as_deref(), Some("0.123"));
    let arp = "? (169.254.1.2) at 0a:00:00:00:00:01 on en3 ifscope permanent [ethernet]\n? (169.254.1.1) at 0a:00:00:00:00:01 on en3 ifscope permanent [ethernet]\n? (192.168.10.2) at 0a:00:00:00:00:01 on en3 ifscope permanent [ethernet]\n? (169.254.1.3) at 0a:00:00:00:00:01 on en3 ifscope [ethernet]\n";
    assert_eq!(
        poisoned_entries(arp, &texts(&["0a:00:00:00:00:01"]), &texts(&["169.254.1.1"])),
        texts(&["169.254.1.2"])
    );
    assert!(writes_number("1.5e3"));
    assert!(!writes_number("1.5.3"));
}

#[test]
fn link_local_addresses_are_awaited() {
    assert!(matches!(first_link_local("en3", "inactive", &None), LinkLocalStep::Skip));
    assert!(matches!(
        first_link_local("en3", "active", &Some(text("169.254.1.1"))),
        LinkLocalStep::Use(_)
    ));
    assert!(matches!(first_link_local("en3", "active", &None), LinkLocalStep::Wait));
    assert!(matches!(second_link_local("en3", 3, &None), LinkLocalStep::Assign(_)));
}

#[test]
fn scans_until_they_agree() {
    let mut s = StableScan::new();
    assert!(!s.observe(Some(0)).finished);
    let a = s.observe(Some(3));
    assert!(a.keep && !a.finished);
    let b = s.observe(Some(3));
    assert!(!b.keep && b.finished);
    let mut apart = StableScan::new();
    assert!(!apart.observe(Some(3)).finished);
    assert!(!apart.observe(Some(2)).finished);
    assert!(!apart.observe(Some(3)).finished);
    assert!(!apart.observe(None).finished);
    assert!(!apart.observe(Some(3)).finished);
    assert!(apart.observe(Some(3)).finished);
    let mut never = StableScan::new();
    for _ in 0..11 {
        assert!(!never.observe(None).finished);
    }
    assert!(never.observe(None).finished);
}

#[test]
fn a_numbered_name_is_known() {
    let hosts = texts(&["HUB", "m3u4"]);
    assert_eq!(canonical_host("m3u4-2237", &hosts), "m3u4");
    assert_eq!(canonical_host("hub", &hosts), "hub");
    assert_eq!(canonical_host("hub-2", &hosts), "hub");
    assert_eq!(canonical_host("m3u4-x", &hosts), "m3u4-x");
    assert_eq!(canonical_host("m3u4-", &hosts), "m3u4-");
    let both = texts(&["m3u4-2", "m3u4"]);
    assert_eq!(canonical_host("m3u4-2", &both), "m3u4-2");
}

#[test]
fn peers_are_probed() {
    let nodes = vec![
        (text("hub"), texts(&["192.168.10.1"])),
        (text("m3u2"), texts(&["192.168.10.2"])),
    ];
    let peers = probe_list(&nodes, "hub");
    assert_eq!(peers.len(), 1);
    let locals = vec![ip("en3", "192.168.10.1"), ip("en4", "192.168.10.5")];
    let mut run = ProbeRun::new(peers, locals);
    let p = run.next().unwrap();
    assert_eq!((p.target.as_str(), p.source.as_str()), ("192.168.10.2", "192.168.10.1"));
    assert!(!p.temporary_route);
    while run.next().is_some() {
        let reached = run.next().unwrap().temporary_route;
        run.record(reached);
    }
    let (routes, result) = run.finish();
    assert_eq!(result.total_tried, 1);
    assert_eq!(result.verified_links.len(), 1);
    assert!(matches!(routes, RouteResult::Fixed { .. }));
}

#[test]
fn the_setup_is_summarized() {
    let settings = RdmaSettings::default_settings();
    assert!(settings.auto_setup && settings.auto_destroy_bridge0);
    let mut r = AutosetupReport::empty();
    assert_eq!(r.summary(), "bridge0=clean, ips=0, routes=no_interfaces, peers=0/0");
    r.bridge0 = Bridge0Result::of_removal(texts(&["en1", "en2"]), Ok(()));
    r.ips = vec![ip("en3", "192.168.10.1")];
    let links = vec![
        PeerAddress { hostname: text("hub"), ip: text("192.168.10.1") },
        PeerAddress { hostname: text("m3u2"), ip: text("192.168.10.2") },
    ];
    r.record_hostfile(text("/h.json"), links, 2);
    assert_eq!(
        r.summary(),
        "bridge0=destroyed(en1,en2), ips=1, routes=fixed(primary=en3, n=1), peers=2/2, hostfile=/h.json"
    );
    assert_eq!(coordinator_ip(&vec![ip("en3", "192.168.10.1")]), "192.168.10.1");
    let nodes = build_hostfile_nodes(
        "192.168.10.1",
        "hub",
        &vec![PeerAddress { hostname: text("m3u2"), ip: text("192.168.10.2") }],
    );
    assert_eq!(nodes[0].hostname, "hub");
    assert_eq!(nodes.len(), 2);
}
