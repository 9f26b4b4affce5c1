use csyn::admin::{
    add_admin_topology, add_report, admin_kind, admin_node_id, insert_admin_node,
    parse_admin_entities, parse_admin_entity, session_links, shorten, GraphLink, GraphNode,
};
use csyn::cli::{graph_config, GraphCommand, ZenohArgs};
use csyn::contract_warning::{ContractWarningThrottle, WARNING_INTERVAL_NS};
use csyn::graph::{take_reply, AdminReply, GraphSnapshot, GraphState};
use csyn::http::{response_head, route, route_request, text_of_bytes, Route};
use csyn::json::{list_field, string_field};
use csyn::ordered::OrderedMap;
use csyn::types::TopicType;
use serde_json::Value;

#[test]
fn warning_state_is_tracked_per_topic() {
    let mut throttle = ContractWarningThrottle::default();
    let start = 5;
    assert!(throttle.warn("cub1/odom", "schema hash mismatch", start).is_some());
    let first = throttle.last_warning("cub1/odom").unwrap();
    assert!(throttle.warn("cub1/odom", "schema hash mismatch", start + 1).is_none());
    assert_eq!(throttle.last_warning("cub1/odom").unwrap(), first);
    throttle.warn("cub2/odom", "schema hash mismatch", start + 2);
    assert_eq!(throttle.len(), 2);

    let expired = throttle.last_warning("cub1/odom").unwrap();
    throttle.warn("cub1/odom", "schema hash mismatch", expired + WARNING_INTERVAL_NS);
    assert!(throttle.last_warning("cub1/odom").unwrap() > expired);
}

#[test]
fn warnings_are_worded_and_given_once_per_interval() {
    let mut throttle = ContractWarningThrottle::default();
    assert_eq!(
        throttle.warn("k", "bad", 0).unwrap(),
        "warning: rejecting k: bad"
    );
    assert!(throttle.warn("k", "bad", WARNING_INTERVAL_NS - 1).is_none());
    assert!(throttle.warn("other", "bad", WARNING_INTERVAL_NS - 1).is_some());
    assert!(throttle.warn("k", "bad", WARNING_INTERVAL_NS).is_some());
    assert_eq!(throttle.len(), 2);
    throttle.warn("third", "bad", 3 * WARNING_INTERVAL_NS);
    assert_eq!(throttle.len(), 1);
    assert_eq!(throttle.last_warning("k"), None);
}

#[test]
fn parses_admin_entity_keys() {
    let mut entries: OrderedMap<String> = OrderedMap::new();
    entries.insert(
        "@/abc/router/subscriber/synapse/manual_control/subscriber".to_owned(),
        "{}".to_owned(),
    );

    let entities = parse_admin_entities(&entries);
    assert_eq!(entities.len(), 1);
    assert_eq!(entities[0].zid, "abc");
    assert_eq!(entities[0].mode, "router");
    assert_eq!(entities[0].kind, "subscriber");
    assert_eq!(entities[0].expr, "synapse/manual_control");
}

#[test]
fn other_admin_keys_are_passed_over() {
    assert!(parse_admin_entity("@/abc/router/subscriber/subscriber").is_none());
    assert!(parse_admin_entity("x/abc/router/subscriber/a/subscriber").is_none());
    assert!(parse_admin_entity("@/abc/router/subscriber/a/publisher").is_none());
    assert!(parse_admin_entity("@/abc/router/subscriber//subscriber").is_none());
    assert!(parse_admin_entity("").is_none());
    let entity = parse_admin_entity("@/a/peer/queryable/x/queryable").unwrap();
    assert_eq!((entity.mode.as_str(), entity.expr.as_str()), ("peer", "x"));
}

#[test]
fn parses_admin_router_sessions() {
    let mut entries: OrderedMap<String> = OrderedMap::new();
    entries.insert(
        "@/router/status".to_owned(),
        r#"{
                "zid": "router-zid",
                "whatami": "router",
                "sessions": [{
                    "peer": "client-zid",
                    "whatami": "client",
                    "region": "south:0:client",
                    "links": [{"src": "tcp/127.0.0.1:7447", "dst": "tcp/127.0.0.1:50000"}]
                }]
            }"#
        .to_owned(),
    );

    let mut nodes: OrderedMap<GraphNode> = OrderedMap::new();
    let mut links: Vec<GraphLink> = Vec::new();
    add_admin_topology(&entries, &mut nodes, &mut links);

    assert!(nodes.contains_key("router:router-zid"));
    assert!(nodes.contains_key("client:client-zid"));
    assert_eq!(links.len(), 1);
    assert_eq!(links[0].source, "router:router-zid");
    assert_eq!(links[0].target, "client:client-zid");
    assert_eq!(links[0].label, "south:0:client");
    assert_eq!(
        nodes.get("client:client-zid").unwrap().detail,
        "south:0:client; tcp/127.0.0.1:7447 -> tcp/127.0.0.1:50000"
    );
    assert_eq!(nodes.get("router:router-zid").unwrap().label, "router router-z...");
}

fn json(text: &str) -> Value {
    serde_json::from_str(text).unwrap()
}

#[test]
fn reports_list_routers_peers_and_clients() {
    let report = json(
        r#"{"zid": "r", "whatami": "bridge", "routers": ["r1", 5], "peers": ["p1"],
            "clients": ["c1", null], "sessions": [{"peer": "x"}, {"whatami": "peer"}, 7,
            {"peer": "y", "whatami": "peer", "links": []}]}"#,
    );
    let mut nodes: OrderedMap<GraphNode> = OrderedMap::new();
    let mut links: Vec<GraphLink> = Vec::new();
    add_report(&report, &mut nodes, &mut links);
    let ids: Vec<String> = (0..nodes.len()).map(|i| nodes.key_at(i).clone()).collect();
    assert_eq!(
        ids,
        vec!["client:c1", "client:x", "other:r", "peer:p1", "peer:y", "router:r", "router:r1"]
    );
    assert_eq!(links.len(), 2);
    assert_eq!(links[0].label, "session");
    assert_eq!(links[1].target, "peer:y");
    assert_eq!(nodes.get("peer:y").unwrap().detail, "y");
    let mut untouched: OrderedMap<GraphNode> = OrderedMap::new();
    let mut none: Vec<GraphLink> = Vec::new();
    add_report(&json("[1, 2]"), &mut untouched, &mut none);
    add_report(&json(r#"{"sessions": [{"peer": "x"}]}"#), &mut untouched, &mut none);
    assert_eq!(untouched.len(), 0);
    assert_eq!(none.len(), 0);
}

#[test]
fn payloads_that_are_no_json_tell_nothing() {
    let mut entries: OrderedMap<String> = OrderedMap::new();
    entries.insert("@/a".to_owned(), "{".to_owned());
    entries.insert("@/b".to_owned(), r#"{"routers": ["r"]}"#.to_owned());
    let mut nodes: OrderedMap<GraphNode> = OrderedMap::new();
    let mut links: Vec<GraphLink> = Vec::new();
    add_admin_topology(&entries, &mut nodes, &mut links);
    assert_eq!(nodes.len(), 1);
    assert!(nodes.contains_key("router:r"));
}

#[test]
fn json_fields_are_read_by_their_kind() {
    let value = json(r#"{"a": "x", "b": ["y", "z"], "c": 5}"#);
    assert_eq!(string_field(&value, "a"), Some("x"));
    assert_eq!(string_field(&value, "b"), None);
    assert_eq!(string_field(&value, "d"), None);
    assert_eq!(list_field(&value, "b").unwrap().len(), 2);
    assert!(list_field(&value, "a").is_none());
    assert_eq!(string_field(&json("\"a\""), "a"), None);
}

#[test]
fn session_links_are_rendered() {
    let session = json(
        r#"{"links": [{"src": "a", "dst": "b"}, {"src": "c"}, 5, {"src": "d", "dst": "e"}]}"#,
    );
    assert_eq!(session_links(&session).unwrap(), "a -> b, d -> e");
    assert_eq!(session_links(&json(r#"{"links": [{"src": "c"}]}"#)), None);
    assert_eq!(session_links(&json("{}")), None);
}

#[test]
fn network_nodes_are_named_and_kept() {
    assert_eq!(admin_kind("peer"), "peer");
    assert_eq!(admin_kind("bridge"), "other");
    assert_eq!(admin_node_id("bridge", "z"), "other:z");
    let mut nodes: OrderedMap<GraphNode> = OrderedMap::new();
    insert_admin_node(&mut nodes, "peer", "0123456789", "first".to_owned());
    insert_admin_node(&mut nodes, "peer", "0123456789", "second".to_owned());
    assert_eq!(nodes.len(), 1);
    let node = nodes.get("peer:0123456789").unwrap();
    assert_eq!(node.detail, "first");
    assert_eq!(node.label, "peer 01234567...");
    assert_eq!(node.kind, "peer");
    assert!(!node.stale);
}

#[test]
fn long_ids_are_shortened() {
    assert_eq!(shorten("12345678", 8), "12345678");
    assert_eq!(shorten("123456789", 8), "12345678...");
    assert_eq!(shorten("", 0), "");
    assert_eq!(shorten("éééé", 8), "éééé");
    assert_eq!(shorten("ééééé", 8), "éééé...");
    assert_eq!(shorten("1234567é", 8), "1234567...");
    assert_eq!(shorten("𝄞", 3), "...");
}

fn ids(snapshot: &GraphSnapshot) -> Vec<&str> {
    snapshot.nodes.iter().map(|node| node.id.as_str()).collect()
}

#[test]
fn snapshots_start_with_the_transport() {
    let state = GraphState::new("tcp/a:1".to_owned(), "**".to_owned());
    let snapshot = state.snapshot(7);
    assert_eq!(ids(&snapshot), vec!["zenoh"]);
    assert_eq!(snapshot.nodes[0].detail, "tcp/a:1");
    assert_eq!(snapshot.nodes[0].kind, "transport");
    assert_eq!(snapshot.uptime_ms, 7);
    assert_eq!(snapshot.observed_keyexpr, "**");
    assert_eq!(snapshot.links.len(), 0);
    assert_eq!(snapshot.last_error, None);
}

#[test]
fn every_topic_has_a_window_of_its_own() {
    let mut state = GraphState::new("c".to_owned(), "**".to_owned());
    for (topic, time) in [("a", 0), ("b", 1), ("a", 1), ("a", 5_001), ("b", 5_001), ("a", 5_002)] {
        state.observe_topic(topic.to_owned(), 1, None, time);
    }
    let topics = state.snapshot(5_002).topics;
    assert_eq!((topics[0].messages, topics[0].recent), (4, 2));
    assert_eq!((topics[1].messages, topics[1].recent), (2, 2));
}

#[test]
fn observed_topics_are_counted_within_a_window() {
    let mut state = GraphState::new("c".to_owned(), "**".to_owned());
    for (time, size) in [(0, 10), (1_000, 20), (5_000, 30), (6_000, 40)] {
        assert!(state.has_room("t", size));
        state.observe_topic("t".to_owned(), size, Some("T".to_owned()), time);
    }
    let snapshot = state.snapshot(6_500);
    let topic = &snapshot.topics[0];
    assert_eq!(topic.messages, 4);
    assert_eq!(topic.bytes, 100);
    assert_eq!(topic.last_payload_bytes, 40);
    assert_eq!(topic.age_ms, 500);
    assert_eq!(topic.recent, 3);
    assert_eq!(topic.root_type.as_deref(), Some("T"));
    let node = snapshot.nodes.iter().find(|node| node.id == "topic:t").unwrap();
    assert_eq!((node.messages, node.bytes, node.recent, node.stale), (4, 100, 3, false));
    assert_eq!(snapshot.links[0].label, "4 msg");
    assert_eq!(snapshot.links[0].source, "zenoh");
    assert_eq!(snapshot.links[0].kind, "traffic");
    assert!(!state.snapshot(11_000).nodes.iter().any(|node| node.id == "topic:t" && node.stale));
    assert!(state.snapshot(11_001).nodes.iter().any(|node| node.id == "topic:t" && node.stale));
}

#[test]
fn a_topic_keeps_the_first_type_that_is_known() {
    let mut state = GraphState::new("c".to_owned(), "**".to_owned());
    state.observe_topic("t".to_owned(), 1, None, 1);
    assert_eq!(state.snapshot(1).nodes[0].detail, "unknown payload");
    state.observe_topic("t".to_owned(), 1, Some("A".to_owned()), 2);
    state.observe_topic("t".to_owned(), 1, Some("B".to_owned()), 3);
    assert_eq!(state.snapshot(3).topics[0].root_type.as_deref(), Some("A"));
}

#[test]
fn counters_that_are_full_take_no_sample() {
    let mut state = GraphState::new("c".to_owned(), "**".to_owned());
    state.observe_topic("t".to_owned(), usize::MAX, None, 1);
    assert!(!state.has_room("t", 1));
    assert!(state.has_room("u", 1));
}

#[test]
fn samples_are_received_by_their_contract() {
    let known = TopicType::find("VehicleHealth").unwrap();
    let mut state = GraphState::new("c".to_owned(), "**".to_owned());
    let mut warnings = ContractWarningThrottle::default();
    let none =
        state.receive(&mut warnings, "k".to_owned(), &known.zenoh_encoding(), 16, 3, 30);
    assert_eq!(none, None);
    let topics = state.snapshot(3).topics;
    assert_eq!(topics[0].root_type.as_deref(), Some("synapse.topic.VehicleHealthData"));
    let warning = state.receive(&mut warnings, "k".to_owned(), "zenoh/bytes", 16, 4, 40);
    let reason = "Synapse value encoding is missing type metadata";
    assert_eq!(warning.unwrap(), format!("warning: rejecting k: {reason}"));
    assert_eq!(state.snapshot(4).last_error.unwrap(), format!("rejecting k: {reason}"));
    assert_eq!(state.receive(&mut warnings, "k".to_owned(), "zenoh/bytes", 16, 5, 50), None);
    assert_eq!(state.snapshot(5).topics[0].messages, 1);
}

#[test]
fn declared_publishers_and_subscribers_are_linked_to_their_topics() {
    let mut state = GraphState::new("c".to_owned(), "**".to_owned());
    state.observe_topic("a/b".to_owned(), 9, Some("T".to_owned()), 1);
    let mut entries: OrderedMap<String> = OrderedMap::new();
    for key in [
        "@/z/router/publisher/a/b/publisher",
        "@/z/router/subscriber/c/subscriber",
        "@/z/router/queryable/q/queryable",
    ] {
        entries.insert(key.to_owned(), "{}".to_owned());
    }
    state.admin_failed("down".to_owned());
    assert_eq!(state.snapshot(1).admin_error.as_deref(), Some("down"));
    state.admin_polled(entries, 2);
    state.observer_failed("lost".to_owned());
    let snapshot = state.snapshot(3);
    assert_eq!(snapshot.admin_error, None);
    assert_eq!(snapshot.last_error.as_deref(), Some("lost"));
    assert_eq!(snapshot.last_admin_poll_ms, 2);
    assert_eq!(snapshot.admin_entries, 3);
    assert_eq!(
        ids(&snapshot),
        vec![
            "admin:publisher:z:a_b",
            "admin:queryable:z:q",
            "admin:subscriber:z:c",
            "router:z",
            "topic:a/b",
            "topic:c",
            "zenoh",
        ]
    );
    let links: Vec<(&str, &str, &str)> = snapshot
        .links
        .iter()
        .map(|link| (link.source.as_str(), link.target.as_str(), link.kind.as_str()))
        .collect();
    assert_eq!(
        links,
        vec![
            ("zenoh", "topic:a/b", "traffic"),
            ("router:z", "admin:publisher:z:a_b", "admin"),
            ("admin:publisher:z:a_b", "topic:a/b", "publisher"),
            ("router:z", "admin:queryable:z:q", "admin"),
            ("router:z", "admin:subscriber:z:c", "admin"),
            ("topic:c", "admin:subscriber:z:c", "subscriber"),
        ]
    );
    let observed = snapshot.nodes.iter().find(|node| node.id == "topic:a/b").unwrap();
    assert_eq!((observed.detail.as_str(), observed.messages), ("T", 1));
    let declared = snapshot.nodes.iter().find(|node| node.id == "topic:c").unwrap();
    assert_eq!(declared.detail, "declared in Zenoh admin space");
    assert!(declared.stale);
    for link in &snapshot.links {
        assert!(ids(&snapshot).contains(&link.source.as_str()));
        assert!(ids(&snapshot).contains(&link.target.as_str()));
    }
}

#[test]
fn requests_are_routed() {
    assert_eq!(route_request("GET / HTTP/1.1\r\nHost: x\r\n\r\n"), Route::Page);
    assert_eq!(route_request("GET /?a=b HTTP/1.1\r\n"), Route::Page);
    assert_eq!(route_request("GET /app.js?v=1 HTTP/1.1\r\n"), Route::Script);
    assert_eq!(route_request("GET /api/graph HTTP/1.1\r\n"), Route::Graph);
    assert_eq!(route_request("GET /nope HTTP/1.1\r\n"), Route::NotFound);
    assert_eq!(route_request("POST / HTTP/1.1\r\n"), Route::MethodNotAllowed);
    assert_eq!(route_request("GET"), Route::Page);
    assert_eq!(route_request("  GET\u{a0}/app.js"), Route::Script);
    assert_eq!(route_request(""), Route::MethodNotAllowed);
    assert_eq!(route_request("\nGET / HTTP/1.1"), Route::MethodNotAllowed);
    assert_eq!(route(b"GET /api/graph HTTP/1.1\r\n\xff\xfe"), Route::Graph);
    assert_eq!(route(b"GET /\xff HTTP/1.1\r\n"), Route::NotFound);
    assert_eq!(text_of_bytes(b"a\xffb"), "a\u{fffd}b");
    assert_eq!(text_of_bytes("aé".as_bytes()), "aé");
}

#[test]
fn replies_begin_with_a_head() {
    assert_eq!(
        response_head(Route::Graph.status(), Route::Graph.content_type(), 12),
        "HTTP/1.1 200 OK\r\nContent-Type: application/json\r\nContent-Length: 12\r\n\
         Cache-Control: no-store\r\nConnection: close\r\n\r\n"
    );
    assert_eq!(Route::NotFound.status(), "404 Not Found");
    assert_eq!(Route::NotFound.refusal(), Some("not found"));
    assert_eq!(Route::MethodNotAllowed.status(), "405 Method Not Allowed");
    assert_eq!(Route::MethodNotAllowed.refusal(), Some("method not allowed"));
    assert_eq!(Route::MethodNotAllowed.content_type(), "text/plain; charset=utf-8");
    assert_eq!(Route::Page.content_type(), "text/html; charset=utf-8");
    assert_eq!(Route::Script.content_type(), "application/javascript; charset=utf-8");
    assert_eq!(Route::Page.refusal(), None);
}

#[test]
fn the_graph_server_is_configured_from_the_command() {
    let config = graph_config(
        ZenohArgs { connect: "tcp/a:1".to_owned() },
        GraphCommand::Serve {
            bind: "127.0.0.1:8088".to_owned(),
            keyexpr: "**".to_owned(),
            admin_poll_ms: 250,
        },
    );
    assert_eq!(config.connect, "tcp/a:1");
    assert_eq!(config.bind, "127.0.0.1:8088");
    assert_eq!(config.keyexpr, "**");
    assert_eq!(config.admin_poll_ms, 250);
}

#[test]
fn admin_replies_are_collected() {
    let mut entries: OrderedMap<String> = OrderedMap::new();
    let entry = AdminReply::Entry { key: "@/a".to_owned(), payload: b"x\xff".to_vec() };
    assert!(take_reply(&mut entries, entry));
    assert!(take_reply(&mut entries, AdminReply::Refusal { error: "no".to_owned() }));
    assert!(!take_reply(&mut entries, AdminReply::Failure { error: "lost".to_owned() }));
    assert!(!take_reply(&mut entries, AdminReply::End));
    assert_eq!(entries.len(), 3);
    assert_eq!(entries.get("@/a").unwrap(), "x\u{fffd}");
    assert_eq!(entries.get("@error/reply").unwrap(), "no");
    assert_eq!(entries.get("@error/recv").unwrap(), "lost");
}
