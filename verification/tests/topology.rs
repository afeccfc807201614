//! Topology of the mesh: what a graph says, what the tables of the nodes say,
//! and how it is shown.

use asmi::table::TextMap;
use asmi::topology::{
    build_config_args, combinations, expected_links, extract_quoted, find_jaccl_subsets,
    format_table, generate_dot, judge_config, ConfigError, ConfigRun, ConfigTask,
    is_full_mesh, link_local_ips, links_from_tables, parse_arp_peers, parse_dot,
    report_from_tables, select_dot, NodeTables, TopologyLink,
};

const SAMPLE_DOT: &str = r#"graph G {
  node [shape=rectangle];
  a [label="m3u1"];
  b [label="m3u2"];
  c [label="m3u3"];
  d [label="m4m1"];
  a -- b [label="en3/en4"]
  a -- d [label="en4/en4"]
  b -- c [label="en3/en3"]
  b -- d [label="en5/en3"]
  c -- d [label="en5/en5"]
}"#;

const PAIR_DOT: &str = r#"graph G {
  node [shape=rectangle];
  a [label="m3u1"];
  b [label="m3u2"];
  a -- b [label="en3/en4"]
}"#;

fn texts(names: &[&str]) -> Vec<String> {
    names.iter().map(|n| n.to_string()).collect()
}

#[test]
fn test_parse_dot_incomplete_mesh() {
    let hosts = texts(&["m3u1", "m3u2", "m3u3", "m4m1"]);
    let report = parse_dot(SAMPLE_DOT, &hosts).unwrap();

    assert_eq!(report.nodes.len(), 4);
    assert_eq!(report.links.len(), 5);
    assert!(!report.mesh_complete);
    assert!(!report.jaccl_ready);
    assert_eq!(report.missing_links.len(), 1);
    assert_eq!(report.missing_links[0], ("m3u1".to_string(), "m3u3".to_string()));
}

#[test]
fn test_parse_dot_link_devices() {
    let hosts = texts(&["m3u1", "m3u2"]);
    let report = parse_dot(PAIR_DOT, &hosts).unwrap();
    assert_eq!(report.links.len(), 1);
    assert_eq!(report.links[0].device_a, "rdma_en3");
    assert_eq!(report.links[0].device_b, "rdma_en4");
    assert!(report.mesh_complete);
    assert!(report.jaccl_ready);
}

#[test]
fn test_jaccl_subsets() {
    let hosts = texts(&["m3u1", "m3u2", "m3u3", "m4m1"]);
    let report = parse_dot(SAMPLE_DOT, &hosts).unwrap();

    assert!(!report.jaccl_ready_subsets.is_empty());
    let has_bcd = report.jaccl_ready_subsets.iter().any(|s| {
        s.contains(&"m3u2".to_string())
            && s.contains(&"m3u3".to_string())
            && s.contains(&"m4m1".to_string())
    });
    assert!(has_bcd, "m3u2/m3u3/m4m1 should be a valid subset");
}

#[test]
fn test_format_table() {
    let hosts = texts(&["m3u1", "m3u2"]);
    let report = parse_dot(PAIR_DOT, &hosts).unwrap();
    let table = format_table(&report);
    assert!(table.contains("JACCL ready: YES"));
    assert!(table.contains("en3"));
}

#[test]
fn combinations_in_order() {
    assert_eq!(combinations(3, 2), vec![vec![0, 1], vec![0, 2], vec![1, 2]]);
    assert_eq!(combinations(2, 3), Vec::<Vec<usize>>::new());
    assert_eq!(combinations(2, 0), vec![Vec::<usize>::new()]);
}

#[test]
fn expected_links_of_a_mesh() {
    assert_eq!(expected_links(1), 0);
    assert_eq!(expected_links(4), 6);
}

#[test]
fn quoted_values() {
    assert_eq!(extract_quoted("a [label=\"m3u1\"];", "label=").as_deref(), Some("m3u1"));
    assert_eq!(extract_quoted("a [shape=box];", "label="), None);
}

fn link(a: &str, b: &str) -> TopologyLink {
    TopologyLink {
        node_a: a.to_string(),
        device_a: "rdma_en3".to_string(),
        node_b: b.to_string(),
        device_b: "rdma_en4".to_string(),
    }
}

#[test]
fn a_triangle_is_a_full_mesh() {
    let links = vec![link("a", "b"), link("c", "b"), link("a", "c")];
    assert!(is_full_mesh(&texts(&["a", "b", "c"]), &links));
    assert!(!is_full_mesh(&texts(&["a", "b", "d"]), &links));
    let subsets = find_jaccl_subsets(&texts(&["a", "b", "c", "d"]), &links);
    assert_eq!(subsets, vec![texts(&["a", "b", "c"])]);
}

#[test]
fn the_order_of_the_hosts_does_not_matter() {
    for names in [["m3u1", "m3u2"], ["m3u2", "m3u1"]] {
        let report = parse_dot(PAIR_DOT, &texts(&names)).unwrap();
        assert!(report.missing_links.is_empty());
        assert!(report.mesh_complete);
        assert!(report.jaccl_ready);
    }
}

#[test]
fn all_nodes_can_be_a_subset() {
    let links = vec![link("a", "b"), link("c", "b"), link("a", "c")];
    let nodes = texts(&["a", "b", "c"]);
    assert_eq!(find_jaccl_subsets(&nodes, &links), vec![nodes.clone()]);
    assert!(find_jaccl_subsets(&vec![], &links).is_empty());
    let mut four = links.clone();
    for other in ["a", "b", "c"] {
        four.push(link("d", other));
    }
    let nodes = texts(&["d", "a", "b", "c"]);
    assert_eq!(find_jaccl_subsets(&nodes, &four), vec![nodes.clone()]);
    four.pop();
    let subsets = find_jaccl_subsets(&nodes, &four);
    assert_eq!(subsets, vec![texts(&["d", "a", "b"]), texts(&["a", "b", "c"])]);
}

#[test]
fn a_graph_is_read_back() {
    let nodes = texts(&["m3u1", "m3u2"]);
    let dot = generate_dot(&nodes, &vec![link("m3u1", "m3u2")]);
    let report = parse_dot(&dot, &nodes).unwrap();
    assert_eq!(report.links.len(), 1);
    assert_eq!(report.links[0].device_a, "rdma_en3");
    assert_eq!(report.links[0].device_b, "rdma_en4");

    let nodes = texts(&["hub", "studio [east]", "mini-4", "label=x"]);
    let links = vec![
        link("mini-4", "hub"),
        link("studio [east]", "label=x"),
        link("hub", "studio [east]"),
    ];
    let report = parse_dot(&generate_dot(&nodes, &links), &nodes).unwrap();
    assert_eq!(report.links.len(), 3);
    for (read, drawn) in report.links.iter().zip(&links) {
        assert_eq!(read.node_a, drawn.node_a);
        assert_eq!(read.node_b, drawn.node_b);
        assert_eq!(read.device_a, "rdma_en3");
        assert_eq!(read.device_b, "rdma_en4");
    }
}

#[test]
fn a_graph_is_taken_from_the_output() {
    let out = format!("noise\n{}\n", PAIR_DOT);
    assert!(select_dot(&out, "").unwrap().contains("graph G"));
    assert!(select_dot("nothing", "boom").is_err());
}

#[test]
fn tables_make_links() {
    let ifconfig_a = "en3: flags=8863<UP>\n\tinet 169.254.1.1 netmask 0xffff0000\n";
    let ifconfig_b = "en4: flags=8863<UP>\n\tinet 169.254.1.2 netmask 0xffff0000\n";
    let arp_a = "? (169.254.1.2) at 0a:e0:af:1:2:3 on en3 ifscope [ethernet]\n";
    let addresses: TextMap = link_local_ips(ifconfig_a);
    let a = NodeTables {
        host: "m3u1".to_string(),
        addresses,
        peers: parse_arp_peers(arp_a),
    };
    let b = NodeTables {
        host: "m3u2".to_string(),
        addresses: link_local_ips(ifconfig_b),
        peers: vec![],
    };
    let nodes = vec![a, b];
    let links = links_from_tables(&nodes);
    assert_eq!(links.len(), 1);
    assert_eq!((links[0].node_a.as_str(), links[0].node_b.as_str()), ("m3u1", "m3u2"));
    let report = report_from_tables(&nodes);
    assert!(report.mesh_complete);
}

#[test]
fn arguments_of_the_configuration_tool() {
    let hosts: Vec<String> = vec!["hub".to_string(), "m3u2".to_string()];
    assert_eq!(
        build_config_args(&hosts, &ConfigTask::Graph(None)),
        vec!["--hosts", "hub,m3u2", "--over", "thunderbolt", "--dot"]
    );
    assert_eq!(
        build_config_args(&hosts, &ConfigTask::Graph(Some("jaccl".to_string()))),
        vec!["--hosts", "hub,m3u2", "--over", "thunderbolt", "--backend", "jaccl", "--dot"]
    );
    let path = "/tmp/h.json".to_string();
    assert_eq!(
        build_config_args(&hosts, &ConfigTask::Hostfile { path: path.clone() }),
        vec![
            "--hosts",
            "hub,m3u2",
            "--over",
            "thunderbolt",
            "--backend",
            "jaccl",
            "--output-hostfile",
            "/tmp/h.json",
            "--ignore-unreachable",
        ]
    );
    let task = ConfigTask::Setup { backend: "jaccl-ring".to_string(), path };
    assert_eq!(
        build_config_args(&hosts, &task),
        vec![
            "--verbose",
            "--hosts",
            "hub,m3u2",
            "--over",
            "thunderbolt",
            "--backend",
            "jaccl-ring",
            "--auto-setup",
            "--output-hostfile",
            "/tmp/h.json",
        ]
    );
}

#[test]
fn a_run_of_the_configuration_tool_is_judged() {
    let ended = |ok: bool, code: Option<i32>| ConfigRun::Ended {
        ok,
        code,
        stdout: "out".to_string(),
        stderr: "bad".to_string(),
    };
    assert_eq!(judge_config(ended(true, Some(0))).unwrap(), "out");
    assert_eq!(
        judge_config(ended(false, Some(2))).unwrap_err().to_text(),
        "mlx.distributed_config exited with status 2: bad"
    );
    assert_eq!(
        judge_config(ended(false, None)).unwrap_err().to_text(),
        "mlx.distributed_config exited with status -1: bad"
    );
    assert_eq!(
        judge_config(ConfigRun::Missing).unwrap_err().to_text(),
        "mlx.distributed_config binary not found in PATH"
    );
    let failed = judge_config(ConfigRun::Failed("no".to_string())).unwrap_err();
    assert_eq!(failed.to_text(), "io error: no");
    assert_eq!(ConfigError::JsonParse("x".to_string()).to_text(), "invalid JSON output: x");
}
