//! Links between nodes: their addresses, and which of them are remembered.

use asmi::rdma::{deterministic_link_ips, link_key, LinkMemory};
use asmi::topology::{TopologyLink, TopologyReport};

fn link(a: &str, da: &str, b: &str, db: &str) -> TopologyLink {
    TopologyLink {
        node_a: a.to_string(),
        device_a: da.to_string(),
        node_b: b.to_string(),
        device_b: db.to_string(),
    }
}

fn report(links: Vec<TopologyLink>) -> TopologyReport {
    TopologyReport {
        nodes: vec![],
        links,
        mesh_complete: false,
        missing_links: vec![],
        jaccl_ready: false,
        jaccl_ready_subsets: vec![],
        raw_dot: String::new(),
    }
}

#[test]
fn parallel_links_same_pair_are_order_independent() {
    let fwd = report(vec![
        link("hub", "rdma_en4", "m3u2", "rdma_en4"),
        link("hub", "rdma_en5", "m3u2", "rdma_en3"),
    ]);
    let rev = report(vec![
        link("m3u2", "rdma_en3", "hub", "rdma_en5"),
        link("hub", "rdma_en4", "m3u2", "rdma_en4"),
    ]);
    let a = deterministic_link_ips(&fwd);
    let b = deterministic_link_ips(&rev);
    assert_eq!(a, b);
    assert_eq!(a.len(), 2);
    assert_eq!(a[0].ip_first, "192.168.10.1");
    assert_eq!(a[0].ip_second, "192.168.10.2");
    assert_eq!(a[1].ip_first, "192.168.10.5");
    assert_eq!(a[1].ip_second, "192.168.10.6");
}

#[test]
fn crossed_parallel_links_keep_their_addresses() {
    let one = link("hub", "rdma_en3", "m3u2", "rdma_en4");
    let two = link("hub", "rdma_en4", "m3u2", "rdma_en3");
    let turned = link("m3u2", "rdma_en4", "hub", "rdma_en3");
    let a = deterministic_link_ips(&report(vec![one.clone(), two.clone()]));
    let b = deterministic_link_ips(&report(vec![two.clone(), turned]));
    assert_eq!(a, b);
    assert_eq!((a[0].iface_first.as_str(), a[0].ip_first.as_str()), ("en3", "192.168.10.1"));
    assert_eq!((a[1].iface_first.as_str(), a[1].ip_first.as_str()), ("en4", "192.168.10.5"));
    let c = deterministic_link_ips(&report(vec![two.clone(), one.clone(), two.clone()]));
    let d = deterministic_link_ips(&report(vec![one, two.clone(), two]));
    assert_eq!(c, d);
}

#[test]
fn node_order_in_link_is_canonicalized() {
    let r1 = report(vec![link("m3u2", "rdma_en4", "hub", "rdma_en3")]);
    let r2 = report(vec![link("hub", "rdma_en3", "m3u2", "rdma_en4")]);
    let (a, b) = (deterministic_link_ips(&r1), deterministic_link_ips(&r2));
    assert_eq!(a, b);
    assert_eq!(a[0].node_first, "hub");
    assert_eq!(a[0].iface_first, "en3");
}

#[test]
fn multi_pair_sorted_lexicographically() {
    let r = report(vec![
        link("m3u2", "rdma_en5", "m3u3", "rdma_en5"),
        link("hub", "rdma_en4", "m3u2", "rdma_en4"),
    ]);
    let a = deterministic_link_ips(&r);
    assert_eq!(a[0].node_first, "hub");
    assert_eq!(a[0].ip_first, "192.168.10.1");
    assert_eq!(a[1].node_first, "m3u2");
    assert_eq!(a[1].ip_first, "192.168.10.5");
}

#[test]
fn test_links_accumulate_across_scans() {
    let mut known = LinkMemory::new();

    let link_a = link("hub", "rdma_en4", "m3u2", "rdma_en4");
    known.merge(&vec![link_a.clone()]);
    assert_eq!(known.len(), 1);

    let link_b = link("hub", "rdma_en3", "m3u3", "rdma_en4");
    known.merge(&vec![link_b.clone()]);
    assert_eq!(known.len(), 2, "both links should be present after union");
}

#[test]
fn test_link_evicted_after_3_misses() {
    let mut known = LinkMemory::new();

    let link_a = link("hub", "rdma_en4", "m3u2", "rdma_en4");
    let link_b = link("hub", "rdma_en3", "m3u3", "rdma_en4");

    known.merge(&vec![link_a.clone(), link_b.clone()]);
    assert_eq!(known.len(), 2);

    known.merge(&vec![link_b.clone()]);
    assert_eq!(known.len(), 2, "link_a should survive 1 miss");
    known.merge(&vec![link_b.clone()]);
    assert_eq!(known.len(), 2, "link_a should survive 2 misses");

    known.merge(&vec![link_b.clone()]);
    assert_eq!(known.len(), 1, "link_a should be evicted after 3 misses");
    assert!(
        (0..known.len()).any(|i| known.link(i).node_b == "m3u3"),
        "link_b should remain"
    );
}

#[test]
fn test_link_reappears_resets_streak() {
    let mut known = LinkMemory::new();

    let link_a = link("hub", "rdma_en4", "m3u2", "rdma_en4");
    let link_b = link("hub", "rdma_en3", "m3u3", "rdma_en4");

    known.merge(&vec![link_a.clone(), link_b.clone()]);

    known.merge(&vec![link_b.clone()]);
    known.merge(&vec![link_b.clone()]);
    assert_eq!(known.streak(&link_key(&link_a)).unwrap(), 2);

    known.merge(&vec![link_a.clone(), link_b.clone()]);
    assert_eq!(
        known.streak(&link_key(&link_a)).unwrap(),
        0,
        "streak should reset on reappearance"
    );
    assert_eq!(known.len(), 2);
}

#[test]
fn test_empty_scan_increments_all_streaks() {
    let mut known = LinkMemory::new();

    let link_a = link("hub", "rdma_en4", "m3u2", "rdma_en4");
    known.merge(&vec![link_a.clone()]);

    known.merge(&vec![]);
    known.merge(&vec![]);
    assert_eq!(known.len(), 1, "still present after 2 empty scans");
    known.merge(&vec![]);
    assert_eq!(known.len(), 0, "evicted after 3 empty scans");
}

#[test]
fn test_full_6_link_mesh_convergence() {
    let mut known = LinkMemory::new();

    let all_links = vec![
        link("hub", "rdma_en4", "m3u2", "rdma_en4"),
        link("hub", "rdma_en3", "m3u3", "rdma_en4"),
        link("hub", "rdma_en5", "m3u4", "rdma_en5"),
        link("m3u2", "rdma_en5", "m3u3", "rdma_en5"),
        link("m3u2", "rdma_en3", "m3u4", "rdma_en4"),
        link("m3u3", "rdma_en3", "m3u4", "rdma_en3"),
    ];

    known.merge(&all_links[..3].to_vec());
    assert_eq!(known.len(), 3);

    known.merge(&all_links[..5].to_vec());
    assert_eq!(known.len(), 5);

    known.merge(&all_links);
    assert_eq!(known.len(), 6, "full 6-link mesh should be accumulated");

    known.merge(&all_links[..4].to_vec());
    assert_eq!(known.len(), 6, "transient regression should not drop links");
}

#[test]
fn test_missing_streak_cleanup() {
    let mut known = LinkMemory::new();

    let link_a = link("hub", "rdma_en4", "m3u2", "rdma_en4");
    known.merge(&vec![link_a.clone()]);

    for _ in 0..3 {
        known.merge(&vec![]);
    }
    assert_eq!(known.len(), 0);
    assert_eq!(
        known.streak(&link_key(&link_a)),
        None,
        "streaks map should be cleaned up with known_links"
    );
}

#[test]
fn a_key_does_not_depend_on_the_order_of_the_ends() {
    let a = link("hub", "rdma_en4", "m3u2", "rdma_en3");
    let b = link("m3u2", "rdma_en3", "hub", "rdma_en4");
    assert_eq!(link_key(&a), link_key(&b));
}

#[test]
fn many_cables_get_different_addresses() {
    let links: Vec<TopologyLink> = (0..5)
        .map(|i| link("hub", &format!("rdma_en{i}"), &format!("m3u{i}"), "rdma_en3"))
        .collect();
    let a = deterministic_link_ips(&report(links));
    let ips: Vec<&str> = a
        .iter()
        .flat_map(|x| vec![x.ip_first.as_str(), x.ip_second.as_str()])
        .collect();
    assert_eq!(
        ips,
        vec![
            "192.168.10.1",
            "192.168.10.2",
            "192.168.10.5",
            "192.168.10.6",
            "192.168.10.9",
            "192.168.10.10",
            "192.168.10.13",
            "192.168.10.14",
            "192.168.10.17",
            "192.168.10.18",
        ]
    );
}
