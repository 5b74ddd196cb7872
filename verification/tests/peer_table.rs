use octoget::config::Config;
use octoget::peers::{fastest_answer, summarize_probe, PeerTable, ProbeResult};

fn table_with(ids: &[(&str, &str)]) -> PeerTable {
    let mut t = PeerTable::new();
    for (id, addr) in ids {
        t.upsert(id.to_string(), addr.to_string(), format!("tok-{}", id), true, "Pending".to_string());
    }
    t
}

#[test]
fn meeting_peers() {
    let mut t = PeerTable::new();
    t.upsert("n1".to_string(), "1.1.1.1:1".to_string(), "a".to_string(), true, "Pending".to_string());
    t.upsert("n1".to_string(), "2.2.2.2:2".to_string(), "b".to_string(), false, "Discovered".to_string());
    t.upsert("n1".to_string(), "2.2.2.2:2".to_string(), "c".to_string(), false, "Discovered".to_string());
    assert_eq!(t.len(), 1);
    let p = t.get(0);
    assert_eq!(p.addresses, vec!["1.1.1.1:1".to_string(), "2.2.2.2:2".to_string()]);
    assert_eq!(p.token, "a");
    assert_eq!(p.status, "Pending");
    assert_eq!(p.best_address, "1.1.1.1:1");
    assert!(!p.shareable);
}

#[test]
fn known_addresses_only_update_sharing() {
    let mut t = table_with(&[("n1", "a:1"), ("n2", "b:2")]);
    assert!(t.mark_known_address(&"b:2".to_string(), false));
    assert!(!t.get(1).shareable);
    assert!(t.get(0).shareable);
    assert!(!t.mark_known_address(&"c:3".to_string(), false));
}

#[test]
fn connection_counts() {
    let mut t = table_with(&[("n1", "a:1")]);
    t.inc_connection("n1");
    t.inc_connection("n1");
    t.dec_connection("n1");
    assert_eq!(t.get(0).active_connections, 1);
    t.dec_connection("n1");
    t.dec_connection("n1");
    assert_eq!(t.get(0).active_connections, 0);
    t.inc_connection("zz");
    assert_eq!(t.best_address_of("n1"), "a:1");
    assert_eq!(t.best_address_of("zz"), "");
}

#[test]
fn choosing_addresses() {
    let mut t = table_with(&[("n1", "a:1"), ("n2", "b:2")]);
    t.apply_health_round(
        &vec![ProbeResult {
            node_id: "n2".to_string(),
            online: true,
            best_address: "".to_string(),
            latency_ms: 3,
            discovered_id: None,
        }],
        "me",
    );
    assert_eq!(
        t.grpc_targets(),
        vec![("a:1".to_string(), "tok-n1".to_string()), ("b:2".to_string(), "tok-n2".to_string())]
    );
    assert_eq!(t.discovery_targets(), vec![("a:1".to_string(), "tok-n1".to_string())]);
    assert_eq!(t.ids_and_tokens(), vec![("n1".to_string(), "tok-n1".to_string()), ("n2".to_string(), "tok-n2".to_string())]);
}

#[test]
fn health_round_updates_and_forgets() {
    let mut t = table_with(&[("n1", "a:1"), ("n2", "b:2"), ("n3", "c:3")]);
    for _ in 0..30 {
        t.apply_health_round(
            &vec![ProbeResult {
                node_id: "n3".to_string(),
                online: false,
                best_address: String::new(),
                latency_ms: 0,
                discovered_id: None,
            }],
            "me",
        );
    }
    assert_eq!(t.get(2).fail_count, 30);
    assert_eq!(t.get(2).status, "Offline");
    t.apply_health_round(
        &vec![
            ProbeResult { node_id: "n1".to_string(), online: true, best_address: "a:9".to_string(), latency_ms: 12, discovered_id: None },
            ProbeResult { node_id: "n3".to_string(), online: false, best_address: String::new(), latency_ms: 0, discovered_id: None },
        ],
        "me",
    );
    assert_eq!(t.len(), 2);
    assert_eq!(t.get(0).status, "Online");
    assert_eq!(t.get(0).latency_ms, 12);
    assert_eq!(t.get(0).best_address, "a:9");
    assert!(!t.contains("n3"));
}

#[test]
fn renamed_peers_merge_or_move() {
    let mut t = table_with(&[("a:1", "a:1"), ("n2", "b:2")]);
    t.set_speed_bits(0, 1.5f64.to_bits());
    t.apply_health_round(
        &vec![ProbeResult {
            node_id: "a:1".to_string(),
            online: true,
            best_address: "a:1".to_string(),
            latency_ms: 1,
            discovered_id: Some("n2".to_string()),
        }],
        "me",
    );
    assert_eq!(t.len(), 1);
    assert_eq!(t.get(0).node_id, "n2");
    assert_eq!(t.get(0).addresses, vec!["b:2".to_string(), "a:1".to_string()]);
    assert_eq!(t.get(0).status, "Online");

    let mut u = table_with(&[("x:1", "x:1")]);
    u.set_speed_bits(0, 2.0f64.to_bits());
    u.rename_peer("x:1", &"n9".to_string(), "me");
    assert_eq!(u.get(0).node_id, "n9");
    assert_eq!(f64::from_bits(u.get(0).download_speed_bits), 2.0);

    let mut v = table_with(&[("y:1", "y:1")]);
    v.rename_peer("y:1", &"me".to_string(), "me");
    assert_eq!(v.len(), 0);
}

#[test]
fn sharing_and_listing_peers() {
    let mut t = table_with(&[("n1", "a:1"), ("n2", "b:2"), ("me", "127.0.0.1:50051")]);
    t.upsert("n3".to_string(), "c:3".to_string(), "t3".to_string(), false, "Pending".to_string());
    let shared: Vec<String> = t.shared_with("me", "n1", true).iter().map(|p| p.node_id.clone()).collect();
    assert_eq!(shared, vec!["n2".to_string()]);
    assert!(t.shared_with("me", "n1", false).is_empty());
    let listed: Vec<String> =
        t.listing("n2", &"127.0.0.1:50051".to_string(), false).iter().map(|p| p.node_id.clone()).collect();
    assert_eq!(listed, vec!["n1".to_string()]);
    let admin: Vec<String> =
        t.listing("", &"127.0.0.1:50051".to_string(), true).iter().map(|p| p.node_id.clone()).collect();
    assert_eq!(admin, vec!["n1".to_string(), "n2".to_string(), "n3".to_string()]);
}

#[test]
fn discovered_peers_and_labels() {
    let t = table_with(&[("n1", "a:1")]);
    assert_eq!(t.discovered_address("me", &"n5".to_string(), &vec!["e:5".to_string()]), Some("e:5".to_string()));
    assert_eq!(t.discovered_address("me", &"n1".to_string(), &vec!["e:5".to_string()]), None);
    assert_eq!(t.discovered_address("me", &"me".to_string(), &vec!["e:5".to_string()]), None);
    assert_eq!(t.discovered_address("me", &"n6".to_string(), &vec![]), None);
    assert_eq!(t.peer_label(&"me".to_string(), "me"), "Local");
    assert_eq!(t.peer_label(&"n1".to_string(), "me"), "a:1");
    assert_eq!(t.peer_label(&"n7".to_string(), "me"), "n7");
}

#[test]
fn removing_peers() {
    let mut t = table_with(&[("n1", "a:1"), ("n2", "b:2")]);
    let p = t.remove_peer("n1").unwrap();
    assert_eq!(p.node_id, "n1");
    assert!(t.remove_peer("n1").is_none());
    assert_eq!(t.lookup("n2"), Some(0));
}

#[test]
fn fastest_answer_wins_the_probe() {
    assert_eq!(fastest_answer(&vec![None, Some(30), Some(10), Some(10)]), Some(2));
    assert_eq!(fastest_answer(&vec![None, None]), None);
    assert_eq!(fastest_answer(&vec![Some(u64::MAX)]), None);
    let addrs = vec!["a:1".to_string(), "b:2".to_string(), "c:3".to_string()];
    let r = summarize_probe("n1".to_string(), &addrs, &vec![Some(40), None, Some(7)], Some("n9".to_string()));
    assert!(r.online);
    assert_eq!((r.best_address.as_str(), r.latency_ms), ("c:3", 7));
    assert_eq!(r.discovered_id.as_deref(), Some("n9"));
    let same = summarize_probe("n1".to_string(), &addrs, &vec![Some(40), None, Some(7)], Some("n1".to_string()));
    assert_eq!(same.discovered_id, None);
    let down = summarize_probe("n1".to_string(), &addrs, &vec![None, None, None], None);
    assert!(!down.online);
    assert_eq!((down.best_address.as_str(), down.latency_ms), ("", u64::MAX));
}

#[test]
fn peer_list_shown_to_clients() {
    let mut t = table_with(&[("n1", "a:1"), ("me", "127.0.0.1:50051")]);
    t.upsert("n3".to_string(), "c:3".to_string(), "t3".to_string(), false, "Pending".to_string());
    let mut cfg = Config::default();
    cfg.peer_speed_limit_kb = Some(500);
    let (id, tok) = ("me".to_string(), "secret".to_string());

    let open = t.list_for_client(&cfg, "x", false, &id, &tok);
    let me = open.me.expect("own entry");
    assert_eq!((me.node_id.as_str(), me.best_address.as_str(), me.token.as_str()), ("me", "127.0.0.1:50051", "secret"));
    assert!(me.shareable);
    assert_eq!(me.speed_limit_kb, 0);
    let ids: Vec<&str> = open.peers.iter().map(|p| p.node_id.as_str()).collect();
    assert_eq!(ids, vec!["n1"]);
    assert_eq!(open.peer_speed_limit_kb, 500);

    cfg.share_node = Some(false);
    cfg.public_address = Some("9.9.9.9:1".to_string());
    cfg.global_speed_limit_kb = Some(5000);
    cfg.shareable = Some(false);
    let closed = t.list_for_client(&cfg, "x", false, &id, &tok);
    assert!(closed.me.is_none());
    assert!(closed.peers.is_empty());
    let owner = t.list_for_client(&cfg, "", true, &id, &tok);
    let me = owner.me.expect("own entry");
    assert_eq!(me.best_address, "9.9.9.9:1");
    assert!(!me.shareable);
    assert_eq!(me.speed_limit_kb, 5000);
    let ids: Vec<&str> = owner.peers.iter().map(|p| p.node_id.as_str()).collect();
    assert_eq!(ids, vec!["n1", "me", "n3"]);
}
