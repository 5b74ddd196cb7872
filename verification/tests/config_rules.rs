use octoget::config::{
    plan_batch_entry, plan_submission, public_address_or_default, remember_peer, resolve_save_dir, CliOverrides,
    Config, PeerConfig, SubmitAction,
};

#[test]
fn remembering_peers() {
    let mut peers: Option<Vec<PeerConfig>> = None;
    remember_peer(&mut peers, &"a:1".to_string(), &"t1".to_string());
    remember_peer(&mut peers, &"b:2".to_string(), &"t2".to_string());
    remember_peer(&mut peers, &"a:1".to_string(), &"t3".to_string());
    let v = peers.unwrap();
    assert_eq!(v.len(), 2);
    assert_eq!((v[0].address.as_str(), v[0].token.as_str()), ("a:1", "t3"));
    assert_eq!((v[1].address.as_str(), v[1].token.as_str()), ("b:2", "t2"));
}

#[test]
fn announced_addresses() {
    assert_eq!(public_address_or_default(&None, None), "127.0.0.1:50051");
    assert_eq!(public_address_or_default(&None, Some(6000)), "127.0.0.1:6000");
    assert_eq!(public_address_or_default(&Some("1.2.3.4:9".to_string()), Some(6000)), "1.2.3.4:9");
}

#[test]
fn save_directories() {
    assert_eq!(resolve_save_dir(&" ".to_string(), &Some("/d".to_string())), "/d");
    assert_eq!(resolve_save_dir(&"".to_string(), &None), "./downloads");
    assert_eq!(resolve_save_dir(&"/x".to_string(), &Some("/d".to_string())), "/x");
}

#[test]
fn submission_plans() {
    assert_eq!(plan_submission(false, true), SubmitAction::Conflict);
    assert_eq!(plan_submission(true, true), SubmitAction::Replace);
    assert_eq!(plan_submission(true, false), SubmitAction::Start);
    assert_eq!(plan_batch_entry(&"  ".to_string(), true, true), SubmitAction::Skip);
    assert_eq!(plan_batch_entry(&"http://a".to_string(), false, true), SubmitAction::Skip);
    assert_eq!(plan_batch_entry(&"http://a".to_string(), true, true), SubmitAction::Replace);
    assert_eq!(plan_batch_entry(&"http://a".to_string(), false, false), SubmitAction::Start);
}

#[test]
fn startup_defaults_match_the_documented_ones() {
    let mut c = Config::default();
    let cli = CliOverrides { grpc_port: None, api_port: None, record_dir: None, max_connections: None, token: None };
    c.apply_startup(&cli, None);
    assert_eq!(c.grpc_port, Some(50051));
    assert_eq!(c.api_port, Some(50052));
    assert_eq!(c.record_dir.as_deref(), Some("./octoget_records"));
    assert_eq!(c.my_token.as_deref(), Some("default_secret_token"));
    assert_eq!(c.max_connections, Some(8));
    assert_eq!(c.max_tasks, Some(16));
    assert_eq!(c.default_save_dir.as_deref(), Some("./downloads"));
    assert_eq!(c.share_node, Some(true));
    assert_eq!(c.shareable, Some(true));
    assert_eq!(c.nat_traversal, Some(false));
    assert_eq!(c.log_level.as_deref(), Some("info"));
}

#[test]
fn command_line_wins_over_file() {
    let mut c = Config::default();
    c.grpc_port = Some(1);
    c.api_port = Some(2);
    c.my_token = Some("file".to_string());
    c.max_tasks = Some(3);
    c.log_level = Some("warn".to_string());
    let cli = CliOverrides {
        grpc_port: Some(7),
        api_port: None,
        record_dir: Some("/r".to_string()),
        max_connections: Some(16),
        token: Some("cli".to_string()),
    };
    c.apply_startup(&cli, Some("/home/u/Downloads".to_string()));
    assert_eq!(c.grpc_port, Some(7));
    assert_eq!(c.api_port, Some(2));
    assert_eq!(c.record_dir.as_deref(), Some("/r"));
    assert_eq!(c.my_token.as_deref(), Some("cli"));
    assert_eq!(c.max_connections, Some(16));
    assert_eq!(c.max_tasks, Some(3));
    assert_eq!(c.default_save_dir.as_deref(), Some("/home/u/Downloads"));
    assert_eq!(c.log_level.as_deref(), Some("warn"));
}
