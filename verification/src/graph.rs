//! ROS 2 graph model: parsing `ros2` CLI output, plus a synthetic graph for
//! when ROS 2 is not installed.

use vstd::prelude::*;

use crate::text::{
    chars_of, contains, contains_chars, find, find_char, owned, slice_chars, split, split_chars,
    string_of, trim, trim_chars, trim_end_matches, trim_end_matches_chars, views,
};

verus! {

broadcast use vstd::string::group_string_axioms;

/// A ROS 2 node.
pub struct NodeInfo {
    pub name: String,
}

/// A ROS 2 topic and its message type.
pub struct TopicInfo {
    pub name: String,
    pub ros_type: String,
}

/// A ROS 2 service and its service type.
pub struct ServiceInfo {
    pub name: String,
    pub ros_type: String,
}

/// A snapshot of the ROS 2 graph.
pub struct GraphFrame {
    pub ros_available: bool,
    pub synthetic: bool,
    pub nodes: Vec<NodeInfo>,
    pub topics: Vec<TopicInfo>,
    pub services: Vec<ServiceInfo>,
}

/// The non-empty trimmed lines of `lines` (pieces between newlines), in
/// order. A trailing `\r` is whitespace, so this is also what
/// `str::lines` followed by trimming gives.
pub open spec fn trimmed_lines(lines: Seq<Seq<char>>) -> Seq<Seq<char>>
    decreases lines.len(),
{
    if lines.len() == 0 {
        seq![]
    } else {
        let t = trim(lines.last());
        let prev = trimmed_lines(lines.drop_last());
        if t.len() == 0 {
            prev
        } else {
            prev.push(t)
        }
    }
}

/// The node names listed in `ros2 node list` output: one per non-empty line.
pub open spec fn node_names(stdout: Seq<char>) -> Seq<Seq<char>> {
    trimmed_lines(split(stdout, '\n'))
}

/// View of a node list.
pub open spec fn node_views(v: Seq<NodeInfo>) -> Seq<Seq<char>> {
    v.map_values(|n: NodeInfo| n.name@)
}

/// Parse `ros2 node list` (one node name per line).
pub fn parse_node_list(stdout: &str) -> (nodes: Vec<NodeInfo>)
    ensures
        node_views(nodes@) == node_names(stdout@),
{
    let cs = chars_of(stdout);
    let lines = split_chars(cs.as_slice(), '\n');
    let mut out: Vec<NodeInfo> = Vec::new();
    let mut i: usize = 0;
    while i < lines.len()
        invariant
            i <= lines@.len(),
            views(lines@) == split(stdout@, '\n'),
            node_views(out@) == trimmed_lines(views(lines@).take(i as int)),
        decreases lines@.len() - i,
    {
        assert(views(lines@).take(i + 1).drop_last() =~= views(lines@).take(i as int));
        assert(views(lines@).take(i + 1).last() == lines@[i as int]@);
        let t = trim_chars(lines[i].as_slice());
        if t.len() > 0 {
            let ghost before = out@;
            out.push(NodeInfo { name: string_of(t.as_slice()) });
            assert(node_views(out@) =~= node_views(before).push(t@));
        }
        i = i + 1;
    }
    assert(views(lines@).take(i as int) =~= views(lines@));
    out
}

/// A `name [type]` line as its name and type (`""` when there is no `[`).
pub open spec fn named_type_of(line: Seq<char>) -> (Seq<char>, Seq<char>) {
    let open = find(line, '[');
    if open < 0 {
        (line, seq![])
    } else {
        (trim(line.take(open)), trim(trim_end_matches(line.skip(open + 1), ']')))
    }
}

/// The `(name, type)` pairs of `ros2 topic list -t` / `ros2 service list -t`
/// output, one per non-empty line.
pub open spec fn named_types(stdout: Seq<char>) -> Seq<(Seq<char>, Seq<char>)> {
    node_names(stdout).map_values(|l: Seq<char>| named_type_of(l))
}

/// View of `(name, type)` string pairs.
pub open spec fn pair_strings_view(v: Seq<(String, String)>) -> Seq<(Seq<char>, Seq<char>)> {
    v.map_values(|p: (String, String)| (p.0@, p.1@))
}

/// Parse `ros2 topic list -t` / `ros2 service list -t`:
/// lines like `/topic [pkg/msg/Type]`.
pub fn parse_named_with_types(stdout: &str) -> (pairs: Vec<(String, String)>)
    ensures
        pair_strings_view(pairs@) == named_types(stdout@),
{
    let nodes = parse_node_list(stdout);
    let mut out: Vec<(String, String)> = Vec::new();
    let mut i: usize = 0;
    while i < nodes.len()
        invariant
            i <= nodes@.len(),
            node_views(nodes@) == node_names(stdout@),
            pair_strings_view(out@) == node_views(nodes@).take(i as int).map_values(
                |l: Seq<char>| named_type_of(l),
            ),
        decreases nodes@.len() - i,
    {
        let line = chars_of(nodes[i].name.as_str());
        assert(line@ == node_views(nodes@)[i as int]);
        let pair = match find_char(line.as_slice(), '[') {
            Some(open) => {
                proof {
                    crate::text::lemma_find_from(line@, '[', 0);
                }
                let n = line.len();
                let head = slice_chars(line.as_slice(), 0, open);
                let tail = slice_chars(line.as_slice(), open + 1, n);
                assert(head@ =~= line@.take(open as int));
                assert(tail@ =~= line@.skip(open + 1));
                let name = trim_chars(head.as_slice());
                let ty = trim_chars(trim_end_matches_chars(tail.as_slice(), ']').as_slice());
                (string_of(name.as_slice()), string_of(ty.as_slice()))
            },
            None => (string_of(line.as_slice()), String::new()),
        };
        let ghost before = out@;
        out.push(pair);
        assert(pair_strings_view(out@) =~= pair_strings_view(before).push(named_type_of(line@)));
        assert(node_views(nodes@).take(i + 1).map_values(|l: Seq<char>| named_type_of(l))
            =~= node_views(nodes@).take(i as int).map_values(|l: Seq<char>| named_type_of(l)).push(
            named_type_of(line@),
        ));
        i = i + 1;
    }
    assert(node_views(nodes@).take(i as int) =~= node_views(nodes@));
    out
}

/// View of a topic list.
pub open spec fn topic_views(v: Seq<TopicInfo>) -> Seq<(Seq<char>, Seq<char>)> {
    v.map_values(|t: TopicInfo| (t.name@, t.ros_type@))
}

/// View of a service list.
pub open spec fn service_views(v: Seq<ServiceInfo>) -> Seq<(Seq<char>, Seq<char>)> {
    v.map_values(|t: ServiceInfo| (t.name@, t.ros_type@))
}

/// Topics from `(name, type)` pairs, in order.
pub fn topics_from_types(pairs: Vec<(String, String)>) -> (topics: Vec<TopicInfo>)
    ensures
        topic_views(topics@) == pair_strings_view(pairs@),
{
    let ghost orig = pair_strings_view(pairs@);
    let mut rest = pairs;
    let mut out: Vec<TopicInfo> = Vec::new();
    while rest.len() > 0
        invariant
            topic_views(out@) + pair_strings_view(rest@) == orig,
        decreases rest@.len(),
    {
        let ghost r0 = rest@;
        let (name, ros_type) = rest.remove(0);
        let ghost before = out@;
        out.push(TopicInfo { name, ros_type });
        assert(pair_strings_view(r0) =~= seq![(name@, ros_type@)] + pair_strings_view(rest@));
        assert(topic_views(out@) =~= topic_views(before).push((name@, ros_type@)));
    }
    assert(pair_strings_view(rest@) =~= seq![]);
    assert(topic_views(out@) =~= orig);
    out
}

/// Services from `(name, type)` pairs, in order.
pub fn services_from_types(pairs: Vec<(String, String)>) -> (services: Vec<ServiceInfo>)
    ensures
        service_views(services@) == pair_strings_view(pairs@),
{
    let ghost orig = pair_strings_view(pairs@);
    let mut rest = pairs;
    let mut out: Vec<ServiceInfo> = Vec::new();
    while rest.len() > 0
        invariant
            service_views(out@) + pair_strings_view(rest@) == orig,
        decreases rest@.len(),
    {
        let ghost r0 = rest@;
        let (name, ros_type) = rest.remove(0);
        let ghost before = out@;
        out.push(ServiceInfo { name, ros_type });
        assert(pair_strings_view(r0) =~= seq![(name@, ros_type@)] + pair_strings_view(rest@));
        assert(service_views(out@) =~= service_views(before).push((name@, ros_type@)));
    }
    assert(pair_strings_view(rest@) =~= seq![]);
    assert(service_views(out@) =~= orig);
    out
}

/// Node names of the synthetic graph.
pub open spec fn synthetic_node_names() -> Seq<Seq<char>> {
    seq!["/micro_ros_agent"@, "/mavros"@, "/camera_node"@, "/ekf2_node"@, "/mission_manager"@, "/rosbag2_recorder"@]
}

/// Topics of the synthetic graph.
pub open spec fn synthetic_topics() -> Seq<(Seq<char>, Seq<char>)> {
    seq![
        ("/fmu/out/vehicle_odometry"@, "px4_msgs/msg/VehicleOdometry"@),
        ("/fmu/out/vehicle_status"@, "px4_msgs/msg/VehicleStatus"@),
        ("/fmu/in/trajectory_setpoint"@, "px4_msgs/msg/TrajectorySetpoint"@),
        ("/mavros/state"@, "mavros_msgs/msg/State"@),
        ("/mavros/global_position/global"@, "sensor_msgs/msg/NavSatFix"@),
        ("/camera/image_raw"@, "sensor_msgs/msg/Image"@),
        ("/camera/camera_info"@, "sensor_msgs/msg/CameraInfo"@),
        ("/tf"@, "tf2_msgs/msg/TFMessage"@),
        ("/scan"@, "sensor_msgs/msg/LaserScan"@),
        ("/rosout"@, "rcl_interfaces/msg/Log"@),
    ]
}

/// Services of the synthetic graph.
pub open spec fn synthetic_services() -> Seq<(Seq<char>, Seq<char>)> {
    seq![
        ("/mavros/cmd/arming"@, "mavros_msgs/srv/CommandBool"@),
        ("/mavros/set_mode"@, "mavros_msgs/srv/SetMode"@),
        ("/ekf2_node/set_parameters"@, "rcl_interfaces/srv/SetParameters"@),
    ]
}

/// A realistic PX4 + companion ROS 2 graph for offline/demo use.
pub fn synthetic_graph() -> (g: GraphFrame)
    ensures
        !g.ros_available,
        g.synthetic,
        node_views(g.nodes@) == synthetic_node_names(),
        topic_views(g.topics@) == synthetic_topics(),
        service_views(g.services@) == synthetic_services(),
{
    let mut nodes: Vec<NodeInfo> = Vec::new();
    nodes.push(NodeInfo { name: owned("/micro_ros_agent") });
    nodes.push(NodeInfo { name: owned("/mavros") });
    nodes.push(NodeInfo { name: owned("/camera_node") });
    nodes.push(NodeInfo { name: owned("/ekf2_node") });
    nodes.push(NodeInfo { name: owned("/mission_manager") });
    nodes.push(NodeInfo { name: owned("/rosbag2_recorder") });
    let mut topics: Vec<TopicInfo> = Vec::new();
    topics.push(TopicInfo { name: owned("/fmu/out/vehicle_odometry"), ros_type: owned("px4_msgs/msg/VehicleOdometry") });
    topics.push(TopicInfo { name: owned("/fmu/out/vehicle_status"), ros_type: owned("px4_msgs/msg/VehicleStatus") });
    topics.push(TopicInfo { name: owned("/fmu/in/trajectory_setpoint"), ros_type: owned("px4_msgs/msg/TrajectorySetpoint") });
    topics.push(TopicInfo { name: owned("/mavros/state"), ros_type: owned("mavros_msgs/msg/State") });
    topics.push(TopicInfo { name: owned("/mavros/global_position/global"), ros_type: owned("sensor_msgs/msg/NavSatFix") });
    topics.push(TopicInfo { name: owned("/camera/image_raw"), ros_type: owned("sensor_msgs/msg/Image") });
    topics.push(TopicInfo { name: owned("/camera/camera_info"), ros_type: owned("sensor_msgs/msg/CameraInfo") });
    topics.push(TopicInfo { name: owned("/tf"), ros_type: owned("tf2_msgs/msg/TFMessage") });
    topics.push(TopicInfo { name: owned("/scan"), ros_type: owned("sensor_msgs/msg/LaserScan") });
    topics.push(TopicInfo { name: owned("/rosout"), ros_type: owned("rcl_interfaces/msg/Log") });
    let mut services: Vec<ServiceInfo> = Vec::new();
    services.push(ServiceInfo { name: owned("/mavros/cmd/arming"), ros_type: owned("mavros_msgs/srv/CommandBool") });
    services.push(ServiceInfo { name: owned("/mavros/set_mode"), ros_type: owned("mavros_msgs/srv/SetMode") });
    services.push(ServiceInfo { name: owned("/ekf2_node/set_parameters"), ros_type: owned("rcl_interfaces/srv/SetParameters") });
    assert(node_views(nodes@) =~= synthetic_node_names());
    assert(topic_views(topics@) =~= synthetic_topics());
    assert(service_views(services@) =~= synthetic_services());
    GraphFrame { ros_available: false, synthetic: true, nodes, topics, services }
}

/// The synthetic one-sample `ros2 topic echo` output for `topic`.
pub open spec fn echo_of(topic: Seq<char>) -> Seq<char> {
    if contains(topic, "vehicle_status"@) {
        "nav_state: 2\narming_state: 2\nfailsafe: false"@
    } else if contains(topic, "odometry"@) {
        "position: [1.2, -0.4, -5.0]\nq: [1.0, 0.0, 0.0, 0.0]"@
    } else if contains(topic, "NavSatFix"@) || contains(topic, "global"@) {
        "latitude: 47.397742\nlongitude: 8.545594\naltitude: 488.0"@
    } else {
        "(synthetic) one sample from "@ + topic + "\ndata: …"@
    }
}

/// A synthetic one-shot sample for `ros2 topic echo` when ROS is absent.
pub fn synthetic_echo(topic: &str) -> (s: String)
    ensures
        s@ == echo_of(topic@),
{
    let t = chars_of(topic);
    if contains_chars(t.as_slice(), chars_of("vehicle_status").as_slice()) {
        owned("nav_state: 2\narming_state: 2\nfailsafe: false")
    } else if contains_chars(t.as_slice(), chars_of("odometry").as_slice()) {
        owned("position: [1.2, -0.4, -5.0]\nq: [1.0, 0.0, 0.0, 0.0]")
    } else if contains_chars(t.as_slice(), chars_of("NavSatFix").as_slice()) || contains_chars(
        t.as_slice(),
        chars_of("global").as_slice(),
    ) {
        owned("latitude: 47.397742\nlongitude: 8.545594\naltitude: 488.0")
    } else {
        let mut out = chars_of("(synthetic) one sample from ");
        crate::text::push_chars(&mut out, t.as_slice());
        crate::text::push_str_chars(&mut out, "\ndata: …");
        string_of(out.as_slice())
    }
}

} // verus!
