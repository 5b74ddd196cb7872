use octoget::node_tasks::{assign_message, dispatch_message, PeerTaskTable};

#[test]
fn handed_over_tasks() {
    let mut t = PeerTaskTable::new();
    let id = "t1".to_string();
    assert_eq!(t.status(&id), ("NotFound".to_string(), 0, 0));
    assert!(t.dispatch(id.clone(), "u".to_string(), "f".to_string(), 100, true));
    assert!(!t.dispatch(id.clone(), "u2".to_string(), "f2".to_string(), 5, false));
    assert_eq!(t.status(&id), ("Pending".to_string(), 0, 100));
    assert!(t.assign(&id, &vec![(0, 0, 49), (1, 50, 99)]));
    assert!(!t.assign(&"t9".to_string(), &vec![(0, 0, 1)]));
    assert_eq!(t.status(&id), ("Downloading".to_string(), 0, 100));
    let z = "z".to_string();
    assert!(t.dispatch(z.clone(), "u".to_string(), "f".to_string(), 0, true));
    assert!(t.assign(&z, &vec![(0, 0, 0)]));
    assert_eq!(t.status(&z), ("Completed".to_string(), 0, 0));
}

#[test]
fn replies_to_other_nodes() {
    assert_eq!(dispatch_message(&"t1".to_string(), true), "Task t1 dispatched successfully");
    assert_eq!(dispatch_message(&"t1".to_string(), false), "Task t1 already exists");
    assert_eq!(assign_message(&"t1".to_string(), 2, true), "Assigned 2 chunks to task t1");
    assert_eq!(assign_message(&"t1".to_string(), 2, false), "Task t1 not found");
}
