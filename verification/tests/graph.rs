use vyuta::graph::{
    parse_named_with_types, parse_node_list, services_from_types, synthetic_echo, synthetic_graph, topics_from_types,
};

#[test]
fn parses_node_list() {
    let n = parse_node_list("/mavros\n/camera_node\n\n  /ekf2  \n");
    assert_eq!(n.len(), 3);
    assert_eq!(n[2].name, "/ekf2");
}

#[test]
fn parses_typed_list() {
    let pairs = parse_named_with_types(
        "/fmu/out/vehicle_status [px4_msgs/msg/VehicleStatus]\n/tf [tf2_msgs/msg/TFMessage]\n",
    );
    assert_eq!(pairs.len(), 2);
    assert_eq!(pairs[0].0, "/fmu/out/vehicle_status");
    assert_eq!(pairs[0].1, "px4_msgs/msg/VehicleStatus");
}

#[test]
fn synthetic_graph_is_populated() {
    let g = synthetic_graph();
    assert!(g.synthetic && !g.ros_available);
    assert!(!g.nodes.is_empty() && !g.topics.is_empty() && !g.services.is_empty());
}

#[test]
fn untyped_lines_and_crlf_are_handled() {
    let pairs = parse_named_with_types("/plain\r\n  /x [a/b]  \n");
    assert_eq!(pairs, vec![("/plain".to_string(), String::new()), ("/x".to_string(), "a/b".to_string())]);
    let topics = topics_from_types(pairs.clone());
    assert_eq!(topics[1].name, "/x");
    assert_eq!(topics[1].ros_type, "a/b");
    let services = services_from_types(pairs);
    assert_eq!(services[0].name, "/plain");
    assert_eq!(services[0].ros_type, "");
}

#[test]
fn synthetic_echo_matches_topic_kind() {
    assert_eq!(synthetic_echo("/fmu/out/vehicle_status"), "nav_state: 2\narming_state: 2\nfailsafe: false");
    assert!(synthetic_echo("/fmu/out/vehicle_odometry").starts_with("position:"));
    assert!(synthetic_echo("/mavros/global_position/global").starts_with("latitude:"));
    assert_eq!(synthetic_echo("/scan"), "(synthetic) one sample from /scan\ndata: …");
}
