//! The graph of a network: the topics that were observed, and what the admin space tells.

use std::collections::VecDeque;

use vstd::prelude::*;
use vstd::string::*;

use crate::admin::{
    add_admin_topology, admin_node, admin_node_id, entities_of, entity_views, insert_admin_node,
    link_views, make_quiet_node, node_id_of, parse_admin_entities, quiet_node, session_detail,
    text_or, with_link, with_list_field, with_listed, with_node, with_report, with_reports,
    with_session, with_sessions, AdminEntity, EntityView, GraphLink, GraphNode, LinkView, NodeView,
    Shape,
};
use crate::catalog::contract_error;
use crate::contract_warning::{after_warning, warns, ContractWarningThrottle};
use crate::http::{lossy_text, text_of_bytes};
use crate::json::{list_field_of, parsed_json, text_field_of, Json};
use crate::ordered::{lists, OrderedMap};
use crate::text::{
    before, before_irreflexive, copy_text, decimal, number, opt_view, replace_char, replaced, same,
};
use crate::types::{contracted, TopicType};

verus! {

/// What the graph server is told to do.
#[derive(Debug)]
pub struct GraphConfig {
    pub connect: String,
    pub bind: String,
    pub keyexpr: String,
    pub admin_poll_ms: u64,
}

/// How long a sample counts as recent, in milliseconds.
pub const RECENT_MS: u64 = 5_000;

/// What was observed of a topic.
#[derive(Debug)]
pub struct TopicStats {
    pub topic: String,
    pub root_type: Option<String>,
    pub messages: u64,
    pub bytes: u64,
    pub last_payload_bytes: u64,
    pub last_seen_ms: u64,
    /// When its recent samples were seen.
    pub recent: VecDeque<u64>,
}

/// The contents of a [`TopicStats`].
pub struct StatsView {
    pub topic: Seq<char>,
    pub root_type: Option<Seq<char>>,
    pub messages: u64,
    pub bytes: u64,
    pub last_payload_bytes: u64,
    pub last_seen_ms: u64,
    pub recent: Seq<u64>,
}

impl View for TopicStats {
    type V = StatsView;

    open spec fn view(&self) -> StatsView {
        StatsView {
            topic: self.topic@,
            root_type: opt_view(self.root_type),
            messages: self.messages,
            bytes: self.bytes,
            last_payload_bytes: self.last_payload_bytes,
            last_seen_ms: self.last_seen_ms,
            recent: self.recent@,
        }
    }
}

/// Times without the first ones that lie more than [`RECENT_MS`] back.
pub open spec fn trimmed(times: Seq<u64>, now_ms: u64) -> Seq<u64>
    decreases times.len(),
{
    if times.len() > 0 && now_ms - times[0] > RECENT_MS {
        trimmed(times.drop_first(), now_ms)
    } else {
        times
    }
}

/// Whether the counters of a topic take one more sample.
pub open spec fn takes_sample(stats: Option<StatsView>, payload_len: usize) -> bool {
    stats matches Some(stats) ==> stats.messages < u64::MAX && stats.bytes + payload_len
        <= u64::MAX
}

/// What was observed of a topic, with one more sample.
pub open spec fn observed(
    stats: Option<StatsView>,
    topic: Seq<char>,
    payload_len: usize,
    root_type: Option<Seq<char>>,
    now_ms: u64,
) -> StatsView {
    let before = match stats {
        Some(stats) => stats,
        None => StatsView {
            topic,
            root_type,
            messages: 0,
            bytes: 0,
            last_payload_bytes: 0,
            last_seen_ms: now_ms,
            recent: seq![],
        },
    };
    StatsView {
        topic: before.topic,
        root_type: if before.root_type is None {
            root_type
        } else {
            before.root_type
        },
        messages: (before.messages + 1) as u64,
        bytes: (before.bytes + payload_len) as u64,
        last_payload_bytes: payload_len as u64,
        last_seen_ms: now_ms,
        recent: trimmed(before.recent.push(now_ms), now_ms),
    }
}

/// What a map holds under a key.
pub open spec fn entry<T>(map: Map<Seq<char>, T>, key: Seq<char>) -> Option<T> {
    if map.dom().contains(key) {
        Some(map[key])
    } else {
        None
    }
}

/// What is known of a network.
#[derive(Debug)]
pub struct GraphState {
    connect: String,
    keyexpr: String,
    topics: OrderedMap<TopicStats>,
    admin_entries: OrderedMap<String>,
    last_admin_poll_ms: u64,
    last_error: Option<String>,
    admin_error: Option<String>,
}

/// The contents of a [`GraphState`].
pub struct StateView {
    pub connect: Seq<char>,
    pub keyexpr: Seq<char>,
    pub topics: Map<Seq<char>, StatsView>,
    pub admin_entries: Map<Seq<char>, Seq<char>>,
    pub last_admin_poll_ms: u64,
    pub last_error: Option<Seq<char>>,
    pub admin_error: Option<Seq<char>>,
}

impl StateView {
    /// What is known when the observer could not go on.
    pub open spec fn failed(self, message: Seq<char>) -> StateView {
        StateView { last_error: Some(message), ..self }
    }

    /// What is known when the admin space could not be asked.
    pub open spec fn not_answered(self, message: Seq<char>) -> StateView {
        StateView { admin_error: Some(message), ..self }
    }

    /// What is known when the admin space was asked.
    pub open spec fn polled(self, entries: Map<Seq<char>, Seq<char>>, now_ms: u64) -> StateView {
        StateView {
            admin_entries: entries,
            last_admin_poll_ms: now_ms,
            admin_error: None,
            ..self
        }
    }

    /// What is known when a sample was received.
    pub open spec fn received(
        self,
        topic: Seq<char>,
        encoding: Seq<char>,
        payload_len: usize,
        now_ms: u64,
    ) -> StateView {
        match contracted(encoding) {
            Some(known) => StateView {
                topics: self.topics.insert(
                    topic,
                    observed(
                        entry(self.topics, topic),
                        topic,
                        payload_len,
                        Some(known.wire_type@),
                        now_ms,
                    ),
                ),
                ..self
            },
            None => StateView {
                last_error: Some("rejecting "@ + topic + ": "@ + contract_error(encoding)),
                ..self
            },
        }
    }
}

impl View for GraphState {
    type V = StateView;

    closed spec fn view(&self) -> StateView {
        StateView {
            connect: self.connect@,
            keyexpr: self.keyexpr@,
            topics: self.topics@,
            admin_entries: self.admin_entries@,
            last_admin_poll_ms: self.last_admin_poll_ms,
            last_error: opt_view(self.last_error),
            admin_error: opt_view(self.admin_error),
        }
    }
}

fn trim(recent: &mut VecDeque<u64>, now_ms: u64)
    ensures
        final(recent)@ == trimmed(old(recent)@, now_ms),
{
    let ghost start = recent@;
    while recent.len() > 0 && now_ms.saturating_sub(recent[0]) > RECENT_MS
        invariant
            trimmed(start, now_ms) == trimmed(recent@, now_ms),
        decreases recent@.len(),
    {
        let ghost before = recent@;
        let _ = recent.pop_front();
        assert(recent@ =~= before.drop_first());
    }
}

impl GraphState {
    /// The topics and the admin entries are in order, and each topic is known by its name.
    pub closed spec fn wf(&self) -> bool {
        &&& self.topics.wf()
        &&& self.admin_entries.wf()
        &&& forall|topic: Seq<char>| #[trigger]
            self.topics@.dom().contains(topic) ==> self.topics@[topic].topic == topic
    }

    /// Nothing is known yet.
    pub fn new(connect: String, keyexpr: String) -> (r: GraphState)
        ensures
            r.wf(),
            r@ == (StateView {
                connect: connect@,
                keyexpr: keyexpr@,
                topics: Map::empty(),
                admin_entries: Map::empty(),
                last_admin_poll_ms: 0,
                last_error: None,
                admin_error: None,
            }),
    {
        GraphState {
            connect,
            keyexpr,
            topics: OrderedMap::new(),
            admin_entries: OrderedMap::new(),
            last_admin_poll_ms: 0,
            last_error: None,
            admin_error: None,
        }
    }

    /// Whether the counters of a topic take one more sample.
    pub fn has_room(&self, topic: &str, payload_len: usize) -> (r: bool)
        requires
            self.wf(),
        ensures
            r == takes_sample(entry(self@.topics, topic@), payload_len),
    {
        match self.topics.get(topic) {
            Some(stats) => stats.messages < u64::MAX && stats.bytes <= u64::MAX
                - payload_len as u64,
            None => true,
        }
    }

    /// A sample was seen.
    pub fn observe_topic(
        &mut self,
        topic: String,
        payload_len: usize,
        root_type: Option<String>,
        now_ms: u64,
    )
        requires
            old(self).wf(),
            takes_sample(entry(old(self)@.topics, topic@), payload_len),
        ensures
            final(self).wf(),
            final(self)@ == (StateView {
                topics: old(self)@.topics.insert(
                    topic@,
                    observed(
                        entry(old(self)@.topics, topic@),
                        topic@,
                        payload_len,
                        opt_view(root_type),
                        now_ms,
                    ),
                ),
                ..old(self)@
            }),
    {
        let ghost was = self@;
        let mut stats = match self.topics.remove(topic.as_str()) {
            Some(stats) => stats,
            None => TopicStats {
                topic: topic.clone(),
                root_type: copy_text(&root_type),
                messages: 0,
                bytes: 0,
                last_payload_bytes: 0,
                last_seen_ms: now_ms,
                recent: VecDeque::new(),
            },
        };
        if stats.root_type.is_none() {
            stats.root_type = root_type;
        }
        stats.messages = stats.messages + 1;
        stats.bytes = stats.bytes + payload_len as u64;
        stats.last_payload_bytes = payload_len as u64;
        stats.last_seen_ms = now_ms;
        stats.recent.push_back(now_ms);
        trim(&mut stats.recent, now_ms);
        let ghost view = stats@;
        self.topics.insert(topic.clone(), stats);
        assert(self@.topics =~= was.topics.insert(topic@, view));
    }

    /// The observer cannot go on, or something is wrong with what it received.
    pub fn observer_failed(&mut self, message: String)
        requires
            old(self).wf(),
        ensures
            final(self).wf(),
            final(self)@ == (StateView { last_error: Some(message@), ..old(self)@ }),
            final(self)@ == old(self)@.failed(message@),
    {
        self.last_error = Some(message);
    }

    /// The admin space cannot be asked.
    pub fn admin_failed(&mut self, message: String)
        requires
            old(self).wf(),
        ensures
            final(self).wf(),
            final(self)@ == (StateView { admin_error: Some(message@), ..old(self)@ }),
            final(self)@ == old(self)@.not_answered(message@),
    {
        self.admin_error = Some(message);
    }

    /// The admin space was asked, and these are its entries.
    pub fn admin_polled(&mut self, entries: OrderedMap<String>, now_ms: u64)
        requires
            old(self).wf(),
            entries.wf(),
        ensures
            final(self).wf(),
            final(self)@ == (StateView {
                admin_entries: entries@,
                last_admin_poll_ms: now_ms,
                admin_error: None,
                ..old(self)@
            }),
            final(self)@ == old(self)@.polled(entries@, now_ms),
    {
        self.admin_error = None;
        self.admin_entries = entries;
        self.last_admin_poll_ms = now_ms;
    }

    /// A sample was received. One with a valid value contract is observed; of any other it
    /// is noted why it is rejected, and a warning is returned if one is due.
    pub fn receive(
        &mut self,
        warnings: &mut ContractWarningThrottle,
        topic: String,
        encoding: &str,
        payload_len: usize,
        now_ms: u64,
        now_ns: u64,
    ) -> (r: Option<String>)
        requires
            old(self).wf(),
            old(warnings).wf(),
            takes_sample(entry(old(self)@.topics, topic@), payload_len),
        ensures
            final(self).wf(),
            final(warnings).wf(),
            match contracted(encoding@) {
                Some(known) => {
                    &&& r is None
                    &&& final(warnings)@ == old(warnings)@
                    &&& final(self)@ == (StateView {
                        topics: old(self)@.topics.insert(
                            topic@,
                            observed(
                                entry(old(self)@.topics, topic@),
                                topic@,
                                payload_len,
                                Some(known.wire_type@),
                                now_ms,
                            ),
                        ),
                        ..old(self)@
                    })
                },
                None => {
                    &&& final(self)@ == (StateView {
                        last_error: Some(
                            "rejecting "@ + topic@ + ": "@ + contract_error(encoding@),
                        ),
                        ..old(self)@
                    })
                    &&& final(warnings)@ == after_warning(old(warnings)@, topic@, now_ns)
                    &&& r is Some <==> warns(old(warnings)@, topic@, now_ns)
                    &&& r matches Some(warning) ==> warning@ == "warning: rejecting "@ + topic@
                        + ": "@ + contract_error(encoding@)
                },
            },
            final(self)@ == old(self)@.received(topic@, encoding@, payload_len, now_ms),
    {
        match TopicType::from_value_encoding(encoding) {
            Ok(known) => {
                let root_type = match known.wire_type() {
                    Some(wire_type) => Some(wire_type.to_owned()),
                    None => None,
                };
                self.observe_topic(topic, payload_len, root_type, now_ms);
                None
            },
            Err(error) => {
                let reason = error.message();
                let warning = warnings.warn(topic.as_str(), reason.as_str(), now_ns);
                let mut rejection = "rejecting ".to_owned();
                rejection.append(topic.as_str());
                rejection.append(": ");
                rejection.append(reason.as_str());
                self.observer_failed(rejection);
                warning
            },
        }
    }
}

/// What comes of asking the admin space, reply by reply.
#[derive(Debug)]
pub enum AdminReply {
    /// An entry.
    Entry { key: String, payload: Vec<u8> },
    /// A reply that reports an error.
    Refusal { error: String },
    /// The replies cannot be received any further.
    Failure { error: String },
    /// There are no more replies.
    End,
}

/// The entries of the admin space with a reply, and whether to wait for the next one.
pub open spec fn replied(
    entries: Map<Seq<char>, Seq<char>>,
    reply: AdminReply,
) -> (Map<Seq<char>, Seq<char>>, bool) {
    match reply {
        AdminReply::Entry { key, payload } => (
            entries.insert(key@, lossy_text(payload@)),
            true,
        ),
        AdminReply::Refusal { error } => (entries.insert("@error/reply"@, error@), true),
        AdminReply::Failure { error } => (entries.insert("@error/recv"@, error@), false),
        AdminReply::End => (entries, false),
    }
}

/// Take a reply of the admin space in. Returns whether to wait for the next one.
pub fn take_reply(entries: &mut OrderedMap<String>, reply: AdminReply) -> (r: bool)
    requires
        old(entries).wf(),
    ensures
        final(entries).wf(),
        (final(entries)@, r) == replied(old(entries)@, reply),
{
    match reply {
        AdminReply::Entry { key, payload } => {
            entries.insert(key, text_of_bytes(payload.as_slice()));
            true
        },
        AdminReply::Refusal { error } => {
            entries.insert("@error/reply".to_owned(), error);
            true
        },
        AdminReply::Failure { error } => {
            entries.insert("@error/recv".to_owned(), error);
            false
        },
        AdminReply::End => false,
    }
}

/// The node that stands for the network's transport.
pub open spec fn transport_node(connect: Seq<char>) -> NodeView {
    quiet_node("zenoh"@, "Zenoh"@, "transport"@, connect, false)
}

/// The id of a topic's node.
pub open spec fn topic_node_id(topic: Seq<char>) -> Seq<char> {
    "topic:"@ + topic
}

/// Whether a topic was not seen for long.
pub open spec fn is_stale(stats: StatsView, now_ms: u64) -> bool {
    now_ms - stats.last_seen_ms > RECENT_MS
}

/// The node of an observed topic.
pub open spec fn topic_node(stats: StatsView, now_ms: u64) -> NodeView {
    NodeView {
        id: topic_node_id(stats.topic),
        label: stats.topic,
        kind: "topic"@,
        detail: match stats.root_type {
            Some(root_type) => root_type,
            None => "unknown payload"@,
        },
        messages: stats.messages,
        bytes: stats.bytes,
        recent: stats.recent.len() as u64,
        stale: is_stale(stats, now_ms),
    }
}

/// The graph with an observed topic.
pub open spec fn with_topic(shape: Shape, stats: StatsView, now_ms: u64) -> Shape {
    Shape {
        nodes: shape.nodes.insert(topic_node_id(stats.topic), topic_node(stats, now_ms)),
        links: shape.links.push(
            LinkView {
                source: "zenoh"@,
                target: topic_node_id(stats.topic),
                label: decimal(stats.messages as nat) + " msg"@,
                kind: "traffic"@,
            },
        ),
    }
}

/// The graph with the observed topics.
pub open spec fn with_topics(shape: Shape, topics: Seq<StatsView>, now_ms: u64) -> Shape
    decreases topics.len(),
{
    if topics.len() == 0 {
        shape
    } else {
        with_topic(with_topics(shape, topics.drop_last(), now_ms), topics.last(), now_ms)
    }
}

/// The id of the node of something that is declared.
pub open spec fn entity_node_id(entity: EntityView) -> Seq<char> {
    "admin:"@ + entity.kind + ":"@ + entity.zid + ":"@ + replaced(entity.expr, '/', '_')
}

/// The node of something that is declared.
pub open spec fn entity_node(entity: EntityView) -> NodeView {
    quiet_node(entity_node_id(entity), entity.kind, entity.kind, entity.expr, false)
}

/// The node of a topic that is declared and was not observed.
pub open spec fn declared_topic_node(topic: Seq<char>) -> NodeView {
    quiet_node(
        topic_node_id(topic),
        topic,
        "topic"@,
        "declared in Zenoh admin space"@,
        true,
    )
}

/// The graph with something that is declared: who declares it, a node for it with a link,
/// and for a publisher or subscriber its topic with a link in the direction of the data.
pub open spec fn with_entity(shape: Shape, entity: EntityView) -> Shape {
    let declarer = with_node(shape, admin_node(entity.mode, entity.zid, entity.zid));
    let declared = with_link(
        with_node(declarer, entity_node(entity)),
        LinkView {
            source: node_id_of(entity.mode, entity.zid),
            target: entity_node_id(entity),
            label: "admin"@,
            kind: "admin"@,
        },
    );
    if entity.kind == "publisher"@ || entity.kind == "subscriber"@ {
        let publishes = entity.kind == "publisher"@;
        with_link(
            with_node(declared, declared_topic_node(entity.expr)),
            LinkView {
                source: if publishes {
                    entity_node_id(entity)
                } else {
                    topic_node_id(entity.expr)
                },
                target: if publishes {
                    topic_node_id(entity.expr)
                } else {
                    entity_node_id(entity)
                },
                label: entity.kind,
                kind: entity.kind,
            },
        )
    } else {
        declared
    }
}

/// The graph with what is declared.
pub open spec fn with_entities(shape: Shape, entities: Seq<EntityView>) -> Shape
    decreases entities.len(),
{
    if entities.len() == 0 {
        shape
    } else {
        with_entity(with_entities(shape, entities.drop_last()), entities.last())
    }
}

/// The graph of the transport alone.
pub open spec fn bare_shape(connect: Seq<char>) -> Shape {
    Shape {
        nodes: Map::<Seq<char>, NodeView>::empty().insert("zenoh"@, transport_node(connect)),
        links: seq![],
    }
}

/// The graph of a network: its transport, the observed topics, what the admin space
/// reports, and what is declared there.
pub open spec fn network(
    connect: Seq<char>,
    topics: Seq<StatsView>,
    admin_keys: Seq<Seq<char>>,
    admin_payloads: Seq<Seq<char>>,
    now_ms: u64,
) -> Shape {
    with_entities(
        with_reports(with_topics(bare_shape(connect), topics, now_ms), admin_payloads),
        entities_of(admin_keys),
    )
}

/// What is told of an observed topic.
#[derive(Debug)]
pub struct TopicSnapshot {
    pub topic: String,
    pub root_type: Option<String>,
    pub messages: u64,
    pub bytes: u64,
    pub last_payload_bytes: u64,
    pub age_ms: u64,
    /// The messages of the last five seconds.
    pub recent: u64,
}

/// Whether a snapshot tells of a topic what was observed of it.
pub open spec fn tells(snapshot: TopicSnapshot, stats: StatsView, now_ms: u64) -> bool {
    &&& snapshot.topic@ == stats.topic
    &&& opt_view(snapshot.root_type) == stats.root_type
    &&& snapshot.messages == stats.messages
    &&& snapshot.bytes == stats.bytes
    &&& snapshot.last_payload_bytes == stats.last_payload_bytes
    &&& snapshot.age_ms == if now_ms >= stats.last_seen_ms {
        now_ms - stats.last_seen_ms
    } else {
        0
    }
    &&& snapshot.recent == stats.recent.len()
}

/// What is told of a network.
#[derive(Debug)]
pub struct GraphSnapshot {
    pub uptime_ms: u64,
    pub connect: String,
    pub observed_keyexpr: String,
    pub admin_entries: usize,
    pub last_admin_poll_ms: u64,
    pub last_error: Option<String>,
    pub admin_error: Option<String>,
    pub nodes: Vec<GraphNode>,
    pub links: Vec<GraphLink>,
    pub topics: Vec<TopicSnapshot>,
}

/// The contents of a list of nodes.
pub open spec fn node_views(nodes: Seq<GraphNode>) -> Seq<NodeView> {
    nodes.map_values(|node: GraphNode| node@)
}

/// The ids of a list of nodes.
pub open spec fn node_ids(nodes: Seq<NodeView>) -> Seq<Seq<char>> {
    nodes.map_values(|node: NodeView| node.id)
}

/// Whether a snapshot tells of a network what is known of it at a time. `topics` and
/// `entries` are the keys and values of what is known, in the order of the keys.
pub open spec fn tells_of(
    snapshot: GraphSnapshot,
    state: StateView,
    topic_names: Seq<Seq<char>>,
    topics: Seq<StatsView>,
    admin_keys: Seq<Seq<char>>,
    admin_payloads: Seq<Seq<char>>,
    now_ms: u64,
) -> bool {
    let shape = network(state.connect, topics, admin_keys, admin_payloads, now_ms);
    &&& lists(topic_names, topics, state.topics)
    &&& lists(admin_keys, admin_payloads, state.admin_entries)
    &&& snapshot.uptime_ms == now_ms
    &&& snapshot.connect@ == state.connect
    &&& snapshot.observed_keyexpr@ == state.keyexpr
    &&& snapshot.admin_entries == state.admin_entries.dom().len()
    &&& snapshot.last_admin_poll_ms == state.last_admin_poll_ms
    &&& opt_view(snapshot.last_error) == state.last_error
    &&& opt_view(snapshot.admin_error) == state.admin_error
    &&& lists(node_ids(node_views(snapshot.nodes@)), node_views(snapshot.nodes@), shape.nodes)
    &&& link_views(snapshot.links@) == shape.links
    &&& snapshot.topics@.len() == topics.len()
    &&& forall|i: int|
        0 <= i < topics.len() ==> tells(#[trigger] snapshot.topics@[i], topics[i], now_ms)
}

/// Whether every node is known by its id, and every link leads from a node to a node.
pub open spec fn sound(shape: Shape) -> bool {
    &&& forall|id: Seq<char>| #[trigger]
        shape.nodes.dom().contains(id) ==> shape.nodes[id].id == id
    &&& forall|i: int|
        0 <= i < shape.links.len() ==> shape.nodes.dom().contains(
            (#[trigger] shape.links[i]).source,
        ) && shape.nodes.dom().contains(shape.links[i].target)
}

/// Whether a graph has at least the nodes of another, as they are there.
pub open spec fn keeps_nodes(before: Shape, after: Shape) -> bool {
    forall|id: Seq<char>| #[trigger]
        before.nodes.dom().contains(id) ==> after.nodes.dom().contains(id) && after.nodes[id]
            == before.nodes[id]
}

fn make_topic_node(stats: &TopicStats, now_ms: u64) -> (r: GraphNode)
    ensures
        r@ == topic_node(stats@, now_ms),
{
    let mut id = "topic:".to_owned();
    id.append(stats.topic.as_str());
    GraphNode {
        id,
        label: stats.topic.clone(),
        kind: "topic".to_owned(),
        detail: match &stats.root_type {
            Some(root_type) => root_type.clone(),
            None => "unknown payload".to_owned(),
        },
        messages: stats.messages,
        bytes: stats.bytes,
        recent: stats.recent.len() as u64,
        stale: now_ms.saturating_sub(stats.last_seen_ms) > RECENT_MS,
    }
}

fn add_topic_node(
    nodes: &mut OrderedMap<GraphNode>,
    links: &mut Vec<GraphLink>,
    stats: &TopicStats,
    now_ms: u64,
)
    requires
        old(nodes).wf(),
    ensures
        final(nodes).wf(),
        (Shape { nodes: final(nodes)@, links: link_views(final(links)@) }) == with_topic(
            Shape { nodes: old(nodes)@, links: link_views(old(links)@) },
            stats@,
            now_ms,
        ),
{
    let ghost before = link_views(links@);
    let node = make_topic_node(stats, now_ms);
    let id = node.id.clone();
    nodes.insert(id.clone(), node);
    let mut label = number(stats.messages);
    label.append(" msg");
    links.push(
        GraphLink { source: "zenoh".to_owned(), target: id, label, kind: "traffic".to_owned() },
    );
    assert(link_views(links@) =~= before.push(links@.last()@));
}

fn add_entity(
    nodes: &mut OrderedMap<GraphNode>,
    links: &mut Vec<GraphLink>,
    entity: &AdminEntity,
)
    requires
        old(nodes).wf(),
    ensures
        final(nodes).wf(),
        (Shape { nodes: final(nodes)@, links: link_views(final(links)@) }) == with_entity(
            Shape { nodes: old(nodes)@, links: link_views(old(links)@) },
            entity@,
        ),
{
    let ghost start = Shape { nodes: nodes@, links: link_views(links@) };
    let router_id = admin_node_id(entity.mode.as_str(), entity.zid.as_str());
    insert_admin_node(nodes, entity.mode.as_str(), entity.zid.as_str(), entity.zid.clone());
    let ghost declarer = with_node(
        start,
        admin_node(entity.mode@, entity.zid@, entity.zid@),
    );
    assert(declarer == (Shape { nodes: nodes@, links: start.links }));
    let mut entity_id = "admin:".to_owned();
    entity_id.append(entity.kind.as_str());
    entity_id.append(":");
    entity_id.append(entity.zid.as_str());
    entity_id.append(":");
    entity_id.append(replace_char(entity.expr.as_str(), '/', '_').as_str());
    nodes.insert_if_absent(
        entity_id.clone(),
        make_quiet_node(
            entity_id.clone(),
            entity.kind.clone(),
            entity.kind.clone(),
            entity.expr.clone(),
            false,
        ),
    );
    links.push(
        GraphLink {
            source: router_id,
            target: entity_id.clone(),
            label: "admin".to_owned(),
            kind: "admin".to_owned(),
        },
    );
    assert(link_views(links@) =~= start.links.push(links@.last()@));
    let publishes = same(entity.kind.as_str(), "publisher");
    if publishes || same(entity.kind.as_str(), "subscriber") {
        let ghost linked = link_views(links@);
        let mut topic_id = "topic:".to_owned();
        topic_id.append(entity.expr.as_str());
        nodes.insert_if_absent(
            topic_id.clone(),
            make_quiet_node(
                topic_id.clone(),
                entity.expr.clone(),
                "topic".to_owned(),
                "declared in Zenoh admin space".to_owned(),
                true,
            ),
        );
        let (source, target) = if publishes {
            (entity_id, topic_id)
        } else {
            (topic_id, entity_id)
        };
        links.push(
            GraphLink { source, target, label: entity.kind.clone(), kind: entity.kind.clone() },
        );
        assert(link_views(links@) =~= linked.push(links@.last()@));
    }
}

impl GraphState {
    /// What is known of the network at a time.
    pub fn snapshot(&self, now_ms: u64) -> (r: GraphSnapshot)
        requires
            self.wf(),
        ensures
            exists|
                topic_names: Seq<Seq<char>>,
                topics: Seq<StatsView>,
                admin_keys: Seq<Seq<char>>,
                admin_payloads: Seq<Seq<char>>,
            | #[trigger]
                tells_of(r, self@, topic_names, topics, admin_keys, admin_payloads, now_ms),
    {
        let ghost topics = self.topics.value_list();
        let ghost admin_keys = self.admin_entries.key_list();
        let ghost admin_payloads = self.admin_entries.value_list();
        let ghost bare = bare_shape(self@.connect);
        proof {
            self.topics.lemma_lists();
            self.admin_entries.lemma_lists();
            self.admin_entries.lemma_len();
        }
        let mut nodes: OrderedMap<GraphNode> = OrderedMap::new();
        let mut links: Vec<GraphLink> = Vec::new();
        nodes.insert(
            "zenoh".to_owned(),
            make_quiet_node(
                "zenoh".to_owned(),
                "Zenoh".to_owned(),
                "transport".to_owned(),
                self.connect.clone(),
                false,
            ),
        );
        assert(link_views(links@) =~= seq![]);
        assert(topics.take(0) =~= seq![]);
        let mut told: Vec<TopicSnapshot> = Vec::new();
        let mut i: usize = 0;
        while i < self.topics.len()
            invariant
                self.topics.wf(),
                topics == self.topics.value_list(),
                i <= topics.len(),
                nodes.wf(),
                (Shape { nodes: nodes@, links: link_views(links@) }) == with_topics(
                    bare,
                    topics.take(i as int),
                    now_ms,
                ),
                told@.len() == i,
                forall|j: int|
                    0 <= j < i ==> tells(#[trigger] told@[j], topics[j], now_ms),
            decreases topics.len() - i,
        {
            let stats = self.topics.value_at(i);
            proof {
                assert(topics.take(i + 1).drop_last() =~= topics.take(i as int));
                assert(topics.take(i + 1).last() == stats@);
            }
            add_topic_node(&mut nodes, &mut links, stats, now_ms);
            told.push(
                TopicSnapshot {
                    topic: stats.topic.clone(),
                    root_type: copy_text(&stats.root_type),
                    messages: stats.messages,
                    bytes: stats.bytes,
                    last_payload_bytes: stats.last_payload_bytes,
                    age_ms: now_ms.saturating_sub(stats.last_seen_ms),
                    recent: stats.recent.len() as u64,
                },
            );
            i = i + 1;
        }
        assert(topics.take(i as int) =~= topics);
        add_admin_topology(&self.admin_entries, &mut nodes, &mut links);
        let ghost reported = with_reports(with_topics(bare, topics, now_ms), admin_payloads);
        let entities = parse_admin_entities(&self.admin_entries);
        let ghost declared = entities_of(admin_keys);
        let mut k: usize = 0;
        assert(declared.take(0) =~= seq![]);
        while k < entities.len()
            invariant
                k <= entities@.len(),
                declared == entity_views(entities@),
                nodes.wf(),
                (Shape { nodes: nodes@, links: link_views(links@) }) == with_entities(
                    reported,
                    declared.take(k as int),
                ),
            decreases entities.len() - k,
        {
            proof {
                assert(declared.take(k + 1).drop_last() =~= declared.take(k as int));
                assert(declared.take(k + 1).last() == entities@[k as int]@);
            }
            add_entity(&mut nodes, &mut links, &entities[k]);
            k = k + 1;
        }
        assert(declared.take(k as int) =~= declared);
        let ghost shape = network(self@.connect, topics, admin_keys, admin_payloads, now_ms);
        proof {
            nodes.lemma_lists();
            network_is_sound(self@.connect, topics, admin_keys, admin_payloads, now_ms);
            let keys = nodes.key_list();
            let values = nodes.value_list();
            assert(node_ids(values) =~= keys) by {
                assert forall|j: int| 0 <= j < keys.len() implies node_ids(values)[j] == keys[j] by {
                    assert(shape.nodes.dom().contains(keys[j]));
                }
            }
        }
        let r = GraphSnapshot {
            uptime_ms: now_ms,
            connect: self.connect.clone(),
            observed_keyexpr: self.keyexpr.clone(),
            admin_entries: self.admin_entries.len(),
            last_admin_poll_ms: self.last_admin_poll_ms,
            last_error: copy_text(&self.last_error),
            admin_error: copy_text(&self.admin_error),
            nodes: nodes.into_values(),
            links,
            topics: told,
        };
        assert(tells_of(
            r,
            self@,
            self.topics.key_list(),
            topics,
            admin_keys,
            admin_payloads,
            now_ms,
        ));
        r
    }
}

proof fn lemma_with_node(shape: Shape, node: NodeView)
    requires
        sound(shape),
    ensures
        sound(with_node(shape, node)),
        keeps_nodes(shape, with_node(shape, node)),
        with_node(shape, node).nodes.dom().contains(node.id),
{
}

proof fn lemma_with_link(shape: Shape, link: LinkView)
    requires
        sound(shape),
        shape.nodes.dom().contains(link.source),
        shape.nodes.dom().contains(link.target),
    ensures
        sound(with_link(shape, link)),
        keeps_nodes(shape, with_link(shape, link)),
{
}

proof fn lemma_with_topics(connect: Seq<char>, topics: Seq<StatsView>, now_ms: u64)
    ensures
        sound(with_topics(bare_shape(connect), topics, now_ms)),
        with_topics(bare_shape(connect), topics, now_ms).nodes.dom().contains("zenoh"@),
    decreases topics.len(),
{
    if topics.len() > 0 {
        let before = with_topics(bare_shape(connect), topics.drop_last(), now_ms);
        lemma_with_topics(connect, topics.drop_last(), now_ms);
        let after = with_topic(before, topics.last(), now_ms);
        assert forall|i: int| 0 <= i < after.links.len() implies after.nodes.dom().contains(
            (#[trigger] after.links[i]).source,
        ) && after.nodes.dom().contains(after.links[i].target) by {
            if i < before.links.len() {
                assert(after.links[i] == before.links[i]);
            }
        }
    }
}

proof fn lemma_with_listed(shape: Shape, mode: Seq<char>, items: Seq<Json>)
    requires
        sound(shape),
    ensures
        sound(with_listed(shape, mode, items)),
        keeps_nodes(shape, with_listed(shape, mode, items)),
    decreases items.len(),
{
    if items.len() > 0 {
        lemma_with_listed(shape, mode, items.drop_last());
        let before = with_listed(shape, mode, items.drop_last());
        if let Json::Text(zid) = items.last() {
            lemma_with_node(before, admin_node(mode, zid, zid));
        }
    }
}

proof fn lemma_with_list_field(shape: Shape, report: Json, field: Seq<char>, mode: Seq<char>)
    requires
        sound(shape),
    ensures
        sound(with_list_field(shape, report, field, mode)),
        keeps_nodes(shape, with_list_field(shape, report, field, mode)),
{
    if let Some(items) = list_field_of(report, field) {
        lemma_with_listed(shape, mode, items);
    }
}

proof fn lemma_with_sessions(shape: Shape, router_id: Seq<char>, sessions: Seq<Json>)
    requires
        sound(shape),
        shape.nodes.dom().contains(router_id),
    ensures
        sound(with_sessions(shape, router_id, sessions)),
        keeps_nodes(shape, with_sessions(shape, router_id, sessions)),
    decreases sessions.len(),
{
    if sessions.len() > 0 {
        lemma_with_sessions(shape, router_id, sessions.drop_last());
        let before = with_sessions(shape, router_id, sessions.drop_last());
        let session = sessions.last();
        if let Some(peer) = text_field_of(session, "peer"@) {
            let mode = text_or(text_field_of(session, "whatami"@), "client"@);
            let node = admin_node(mode, peer, session_detail(session, peer));
            lemma_with_node(before, node);
            let after = with_session(before, router_id, session);
            lemma_with_link(with_node(before, node), after.links.last());
            assert(after == with_link(with_node(before, node), after.links.last()));
        }
    }
}

proof fn lemma_with_report(shape: Shape, report: Json)
    requires
        sound(shape),
    ensures
        sound(with_report(shape, report)),
        keeps_nodes(shape, with_report(shape, report)),
{
    let zid = text_field_of(report, "zid"@);
    let reporter = match (zid, text_field_of(report, "whatami"@)) {
        (Some(zid), Some(whatami)) => with_node(shape, admin_node(whatami, zid, zid)),
        _ => shape,
    };
    if let (Some(zid), Some(whatami)) = (zid, text_field_of(report, "whatami"@)) {
        lemma_with_node(shape, admin_node(whatami, zid, zid));
    }
    let routers = with_list_field(reporter, report, "routers"@, "router"@);
    lemma_with_list_field(reporter, report, "routers"@, "router"@);
    let peers = with_list_field(routers, report, "peers"@, "peer"@);
    lemma_with_list_field(routers, report, "peers"@, "peer"@);
    let clients = with_list_field(peers, report, "clients"@, "client"@);
    lemma_with_list_field(peers, report, "clients"@, "client"@);
    if let (Some(zid), Some(sessions)) = (zid, list_field_of(report, "sessions"@)) {
        let node = admin_node("router"@, zid, zid);
        lemma_with_node(clients, node);
        lemma_with_sessions(with_node(clients, node), node_id_of("router"@, zid), sessions);
    }
}

proof fn lemma_with_reports(shape: Shape, payloads: Seq<Seq<char>>)
    requires
        sound(shape),
    ensures
        sound(with_reports(shape, payloads)),
        keeps_nodes(shape, with_reports(shape, payloads)),
    decreases payloads.len(),
{
    if payloads.len() > 0 {
        lemma_with_reports(shape, payloads.drop_last());
        if let Some(report) = parsed_json(payloads.last()) {
            lemma_with_report(with_reports(shape, payloads.drop_last()), report);
        }
    }
}

proof fn lemma_with_entity(shape: Shape, entity: EntityView)
    requires
        sound(shape),
    ensures
        sound(with_entity(shape, entity)),
        keeps_nodes(shape, with_entity(shape, entity)),
{
    let node = admin_node(entity.mode, entity.zid, entity.zid);
    lemma_with_node(shape, node);
    let declarer = with_node(shape, node);
    lemma_with_node(declarer, entity_node(entity));
    let declared = with_node(declarer, entity_node(entity));
    let link = LinkView {
        source: node_id_of(entity.mode, entity.zid),
        target: entity_node_id(entity),
        label: "admin"@,
        kind: "admin"@,
    };
    lemma_with_link(declared, link);
    let linked = with_link(declared, link);
    if entity.kind == "publisher"@ || entity.kind == "subscriber"@ {
        lemma_with_node(linked, declared_topic_node(entity.expr));
        let topical = with_node(linked, declared_topic_node(entity.expr));
        let after = with_entity(shape, entity);
        lemma_with_link(topical, after.links.last());
        assert(after == with_link(topical, after.links.last()));
    }
}

proof fn lemma_with_entities(shape: Shape, entities: Seq<EntityView>)
    requires
        sound(shape),
    ensures
        sound(with_entities(shape, entities)),
        keeps_nodes(shape, with_entities(shape, entities)),
    decreases entities.len(),
{
    if entities.len() > 0 {
        lemma_with_entities(shape, entities.drop_last());
        lemma_with_entity(with_entities(shape, entities.drop_last()), entities.last());
    }
}

/// In the graph of a network every node is known by its id, and every link leads from a
/// node to a node.
pub proof fn network_is_sound(
    connect: Seq<char>,
    topics: Seq<StatsView>,
    admin_keys: Seq<Seq<char>>,
    admin_payloads: Seq<Seq<char>>,
    now_ms: u64,
)
    ensures
        sound(network(connect, topics, admin_keys, admin_payloads, now_ms)),
{
    let observed = with_topics(bare_shape(connect), topics, now_ms);
    lemma_with_topics(connect, topics, now_ms);
    lemma_with_reports(observed, admin_payloads);
    lemma_with_entities(with_reports(observed, admin_payloads), entities_of(admin_keys));
}

/// What the admin space tells changes nothing of what was observed: the node of an
/// observed topic is in the graph as its traffic makes it, whatever is declared.
pub proof fn observed_topics_stay(
    connect: Seq<char>,
    topics: Seq<StatsView>,
    admin_keys: Seq<Seq<char>>,
    admin_payloads: Seq<Seq<char>>,
    now_ms: u64,
    index: int,
)
    requires
        0 <= index < topics.len(),
        forall|i: int, j: int|
            0 <= i < j < topics.len() ==> (#[trigger] topics[i]).topic != (#[trigger] topics[j]).topic,
    ensures
        ({
            let nodes = network(connect, topics, admin_keys, admin_payloads, now_ms).nodes;
            let id = topic_node_id(topics[index].topic);
            nodes.dom().contains(id) && nodes[id] == topic_node(topics[index], now_ms)
        }),
{
    let observed = with_topics(bare_shape(connect), topics, now_ms);
    lemma_topic_present(connect, topics, now_ms, index);
    lemma_with_topics(connect, topics, now_ms);
    lemma_with_reports(observed, admin_payloads);
    lemma_with_entities(with_reports(observed, admin_payloads), entities_of(admin_keys));
    let id = topic_node_id(topics[index].topic);
    assert(observed.nodes.dom().contains(id));
    assert(with_reports(observed, admin_payloads).nodes.dom().contains(id));
}

proof fn lemma_topic_present(
    connect: Seq<char>,
    topics: Seq<StatsView>,
    now_ms: u64,
    index: int,
)
    requires
        0 <= index < topics.len(),
        forall|i: int, j: int|
            0 <= i < j < topics.len() ==> (#[trigger] topics[i]).topic != (#[trigger] topics[j]).topic,
    ensures
        ({
            let nodes = with_topics(bare_shape(connect), topics, now_ms).nodes;
            let id = topic_node_id(topics[index].topic);
            nodes.dom().contains(id) && nodes[id] == topic_node(topics[index], now_ms)
        }),
    decreases topics.len(),
{
    if index < topics.len() - 1 {
        let before = topics.drop_last();
        assert forall|i: int, j: int| 0 <= i < j < before.len() implies (#[trigger] before[i]).topic
            != (#[trigger] before[j]).topic by {
            assert(before[i] == topics[i]);
            assert(before[j] == topics[j]);
        }
        lemma_topic_present(connect, before, now_ms, index);
        let id = topic_node_id(topics[index].topic);
        let last = topic_node_id(topics.last().topic);
        assert(topics[index].topic != topics[topics.len() - 1].topic);
        if id == last {
            assert(topics[index].topic =~= id.skip("topic:"@.len() as int));
            assert(topics.last().topic =~= last.skip("topic:"@.len() as int));
        }
    }
}

impl GraphState {
    /// Each topic is known by its name.
    pub proof fn topics_are_named(&self, topic: Seq<char>)
        requires
            self.wf(),
            self@.topics.dom().contains(topic),
        ensures
            self@.topics[topic].topic == topic,
    {
    }

    /// A snapshot has the node of each observed topic as its traffic makes it, whatever the
    /// admin space tells.
    pub proof fn snapshot_shows_observed(
        &self,
        snapshot: GraphSnapshot,
        now_ms: u64,
        topic: Seq<char>,
    )
        requires
            self.wf(),
            exists|
                topic_names: Seq<Seq<char>>,
                topics: Seq<StatsView>,
                admin_keys: Seq<Seq<char>>,
                admin_payloads: Seq<Seq<char>>,
            | #[trigger]
                tells_of(
                    snapshot,
                    self@,
                    topic_names,
                    topics,
                    admin_keys,
                    admin_payloads,
                    now_ms,
                ),
            self@.topics.dom().contains(topic),
        ensures
            node_views(snapshot.nodes@).contains(topic_node(self@.topics[topic], now_ms)),
    {
        let (names, topics, admin_keys, admin_payloads) = choose|
            topic_names: Seq<Seq<char>>,
            topics: Seq<StatsView>,
            admin_keys: Seq<Seq<char>>,
            admin_payloads: Seq<Seq<char>>,
        | #[trigger]
            tells_of(
                snapshot,
                self@,
                topic_names,
                topics,
                admin_keys,
                admin_payloads,
                now_ms,
            );
        assert forall|i: int, j: int| 0 <= i < j < topics.len() implies (#[trigger] topics[i]).topic
            != (#[trigger] topics[j]).topic by {
            self.topics_are_named(names[i]);
            self.topics_are_named(names[j]);
            assert(before(names[i], names[j]));
            before_irreflexive(names[i]);
        }
        assert(names.contains(topic));
        let index = names.index_of(topic);
        assert(topics[index] == self@.topics[topic]);
        observed_topics_stay(self@.connect, topics, admin_keys, admin_payloads, now_ms, index);
        self.topics_are_named(topic);
        let nodes = node_views(snapshot.nodes@);
        let ids = node_ids(nodes);
        assert(ids.contains(topic_node_id(topic)));
        let at = ids.index_of(topic_node_id(topic));
        assert(nodes[at] == topic_node(self@.topics[topic], now_ms));
    }
}

/// Where the clock does not run backwards, the recent samples of a topic are exactly those
/// of the last [`RECENT_MS`].
pub proof fn window_holds_the_recent(times: Seq<u64>, now_ms: u64)
    requires
        in_order(times),
    ensures
        trimmed(times, now_ms) == times.filter(|time: u64| now_ms - time <= RECENT_MS),
    decreases times.len(),
{
    let recent = |time: u64| now_ms - time <= RECENT_MS;
    if times.len() == 0 {
        reveal(Seq::filter);
        assert(times.filter(recent) =~= times);
    } else if recent(times[0]) {
        assert forall|i: int| 0 <= i < times.len() implies recent(times[i]) by {
            assert(times[0] <= times[i]);
        }
        lemma_filter_all(times, recent);
    } else {
        let rest = times.drop_first();
        assert forall|i: int, j: int| 0 <= i <= j < rest.len() implies rest[i] <= rest[j] by {
            assert(rest[i] == times[i + 1]);
            assert(rest[j] == times[j + 1]);
        }
        window_holds_the_recent(rest, now_ms);
        lemma_filter_first(times, recent);
    }
}

/// A sample as it was seen.
pub struct Sighting {
    pub topic: Seq<char>,
    pub payload_len: usize,
    pub root_type: Option<Seq<char>>,
    pub now_ms: u64,
}

/// What is observed of the topics after some samples were seen, one after the other.
pub open spec fn sighted(sightings: Seq<Sighting>) -> Map<Seq<char>, StatsView>
    decreases sightings.len(),
{
    if sightings.len() == 0 {
        Map::empty()
    } else {
        let before = sighted(sightings.drop_last());
        let last = sightings.last();
        before.insert(
            last.topic,
            observed(
                entry(before, last.topic),
                last.topic,
                last.payload_len,
                last.root_type,
                last.now_ms,
            ),
        )
    }
}

/// The times at which a topic was seen.
pub open spec fn times_on(sightings: Seq<Sighting>, topic: Seq<char>) -> Seq<u64>
    decreases sightings.len(),
{
    if sightings.len() == 0 {
        seq![]
    } else if sightings.last().topic == topic {
        times_on(sightings.drop_last(), topic).push(sightings.last().now_ms)
    } else {
        times_on(sightings.drop_last(), topic)
    }
}

/// Whether times do not decrease.
pub open spec fn in_order(times: Seq<u64>) -> bool {
    forall|i: int, j: int| 0 <= i <= j < times.len() ==> times[i] <= times[j]
}

/// Whether the samples were seen by a clock that does not run backwards.
pub open spec fn clocked(sightings: Seq<Sighting>) -> bool {
    forall|i: int, j: int|
        0 <= i <= j < sightings.len() ==> (#[trigger] sightings[i]).now_ms <= (
        #[trigger] sightings[j]).now_ms
}

/// Whether what is observed of a topic that was seen at some times is right: they are
/// counted, and the recent ones are exactly those of the last [`RECENT_MS`] before the
/// last, which is one of them. They do not decrease, and are no more than were counted.
pub open spec fn windowed(stats: StatsView, times: Seq<u64>) -> bool {
    &&& stats.messages == times.len()
    &&& stats.last_seen_ms == times.last()
    &&& stats.recent == times.filter(|time: u64| stats.last_seen_ms - time <= RECENT_MS)
    &&& stats.recent.len() > 0
    &&& stats.recent.last() == stats.last_seen_ms
    &&& stats.recent.len() <= stats.messages
    &&& in_order(stats.recent)
}

/// Whatever samples were seen, the recent ones of every topic are exactly those of the
/// last [`RECENT_MS`].
pub proof fn every_topic_keeps_its_window(sightings: Seq<Sighting>, topic: Seq<char>)
    requires
        clocked(sightings),
        sightings.len() <= u64::MAX,
    ensures
        sighted(sightings).dom().contains(topic) <==> times_on(sightings, topic).len() > 0,
        sighted(sightings).dom().contains(topic) ==> windowed(
            sighted(sightings)[topic],
            times_on(sightings, topic),
        ) && sighted(sightings)[topic].last_seen_ms <= sightings.last().now_ms,
        times_on(sightings, topic).len() <= sightings.len(),
    decreases sightings.len(),
{
    if sightings.len() > 0 {
        let earlier = sightings.drop_last();
        let last = sightings.last();
        assert forall|i: int, j: int| 0 <= i <= j < earlier.len() implies (
        #[trigger] earlier[i]).now_ms <= (#[trigger] earlier[j]).now_ms by {
            assert(earlier[i] == sightings[i]);
            assert(earlier[j] == sightings[j]);
        }
        every_topic_keeps_its_window(earlier, topic);
        if earlier.len() > 0 {
            assert(earlier.last() == sightings[sightings.len() - 2]);
            assert(sightings[sightings.len() - 2].now_ms <= sightings[sightings.len()
                - 1].now_ms);
        }
        if last.topic == topic {
            a_sample_moves_the_window(
                entry(sighted(earlier), topic),
                times_on(earlier, topic),
                topic,
                last.payload_len,
                last.root_type,
                last.now_ms,
            );
        }
    }
}

/// The recent times of a topic, which has none if it was not seen.
pub open spec fn recent_times(stats: Option<StatsView>) -> Seq<u64> {
    match stats {
        Some(stats) => stats.recent,
        None => seq![],
    }
}

/// One more sample of a topic leaves of the recent ones, itself among them, those of the
/// last [`RECENT_MS`].
pub proof fn a_sample_moves_the_window(
    stats: Option<StatsView>,
    times: Seq<u64>,
    topic: Seq<char>,
    payload_len: usize,
    root_type: Option<Seq<char>>,
    now_ms: u64,
)
    requires
        stats is Some <==> times.len() > 0,
        stats matches Some(stats) ==> windowed(stats, times) && stats.last_seen_ms <= now_ms,
        times.len() < u64::MAX,
    ensures
        windowed(observed(stats, topic, payload_len, root_type, now_ms), times.push(now_ms)),
        observed(stats, topic, payload_len, root_type, now_ms).recent == recent_times(stats).push(
            now_ms,
        ).filter(|time: u64| now_ms - time <= RECENT_MS),
{
    let recent = recent_times(stats);
    let now = |time: u64| now_ms - time <= RECENT_MS;
    let pushed = recent.push(now_ms);
    assert(in_order(pushed));
    window_holds_the_recent(pushed, now_ms);
    lemma_trimmed(pushed, now_ms);
    assert(recent.filter(now) == times.filter(now)) by {
        match stats {
            Some(stats) => {
                lemma_filter_twice(
                    times,
                    |time: u64| stats.last_seen_ms - time <= RECENT_MS,
                    now,
                );
            },
            None => {
                assert(times =~= recent);
            },
        }
    }
    reveal(Seq::filter);
    assert(pushed.drop_last() =~= recent);
    assert(times.push(now_ms).drop_last() =~= times);
    assert(now(now_ms));
    assert(pushed.filter(now) == times.push(now_ms).filter(now));
}

proof fn lemma_trimmed(times: Seq<u64>, now_ms: u64)
    requires
        times.len() > 0,
        times.last() == now_ms,
        in_order(times),
    ensures
        0 < trimmed(times, now_ms).len() <= times.len(),
        trimmed(times, now_ms).last() == now_ms,
        in_order(trimmed(times, now_ms)),
    decreases times.len(),
{
    if now_ms - times[0] > RECENT_MS {
        let rest = times.drop_first();
        assert forall|i: int, j: int| 0 <= i <= j < rest.len() implies rest[i] <= rest[j] by {
            assert(rest[i] == times[i + 1]);
            assert(rest[j] == times[j + 1]);
        }
        lemma_trimmed(rest, now_ms);
    }
}

proof fn lemma_filter_twice(
    times: Seq<u64>,
    wide: spec_fn(u64) -> bool,
    narrow: spec_fn(u64) -> bool,
)
    requires
        forall|time: u64| #[trigger] narrow(time) ==> wide(time),
    ensures
        times.filter(wide).filter(narrow) == times.filter(narrow),
    decreases times.len(),
{
    reveal(Seq::filter);
    if times.len() > 0 {
        let rest = times.drop_last();
        lemma_filter_twice(rest, wide, narrow);
        let last = times.last();
        if wide(last) {
            let kept = rest.filter(wide);
            assert(kept.push(last).drop_last() =~= kept);
        }
    } else {
        assert(times.filter(wide) =~= times);
    }
}

proof fn lemma_filter_all(times: Seq<u64>, pred: spec_fn(u64) -> bool)
    requires
        forall|i: int| 0 <= i < times.len() ==> pred(#[trigger] times[i]),
    ensures
        times.filter(pred) == times,
    decreases times.len(),
{
    reveal(Seq::filter);
    if times.len() > 0 {
        lemma_filter_all(times.drop_last(), pred);
        assert(times.drop_last().push(times.last()) =~= times);
    } else {
        assert(times.filter(pred) =~= times);
    }
}

proof fn lemma_filter_first(times: Seq<u64>, pred: spec_fn(u64) -> bool)
    requires
        times.len() > 0,
        !pred(times[0]),
    ensures
        times.filter(pred) == times.drop_first().filter(pred),
    decreases times.len(),
{
    reveal(Seq::filter);
    if times.len() > 1 {
        lemma_filter_first(times.drop_last(), pred);
        assert(times.drop_last().drop_first() =~= times.drop_first().drop_last());
        assert(times.drop_first().last() == times.last());
    } else {
        assert(times.drop_last().filter(pred) =~= seq![]);
        assert(times.drop_first().filter(pred) =~= seq![]);
    }
}

/// The payload bytes of all samples that were seen of a topic.
pub open spec fn bytes_on(sightings: Seq<Sighting>, topic: Seq<char>) -> nat
    decreases sightings.len(),
{
    if sightings.len() == 0 {
        0
    } else {
        bytes_on(sightings.drop_last(), topic) + if sightings.last().topic == topic {
            sightings.last().payload_len as nat
        } else {
            0
        }
    }
}

/// The payload bytes of the last sample that was seen of a topic.
pub open spec fn last_bytes_on(sightings: Seq<Sighting>, topic: Seq<char>) -> nat
    decreases sightings.len(),
{
    if sightings.len() == 0 {
        0
    } else if sightings.last().topic == topic {
        sightings.last().payload_len as nat
    } else {
        last_bytes_on(sightings.drop_last(), topic)
    }
}

/// The first type that a sample of a topic was seen with.
pub open spec fn first_type_on(sightings: Seq<Sighting>, topic: Seq<char>) -> Option<Seq<char>>
    decreases sightings.len(),
{
    if sightings.len() == 0 {
        None
    } else {
        match first_type_on(sightings.drop_last(), topic) {
            Some(root_type) => Some(root_type),
            None => if sightings.last().topic == topic {
                sightings.last().root_type
            } else {
                None
            },
        }
    }
}

/// Whatever samples were seen, what is observed of a topic adds them all up: their number,
/// and the bytes of their payloads. It has the bytes of the last of them, the first type
/// that one was seen with, and the topic's name.
pub proof fn every_topic_adds_up_its_samples(sightings: Seq<Sighting>, topic: Seq<char>)
    requires
        times_on(sightings, topic).len() <= u64::MAX,
        bytes_on(sightings, topic) <= u64::MAX,
    ensures
        sighted(sightings).dom().contains(topic) <==> times_on(sightings, topic).len() > 0,
        sighted(sightings).dom().contains(topic) ==> {
            let stats = sighted(sightings)[topic];
            &&& stats.messages == times_on(sightings, topic).len()
            &&& stats.bytes == bytes_on(sightings, topic)
            &&& stats.last_payload_bytes == last_bytes_on(sightings, topic)
            &&& stats.last_seen_ms == times_on(sightings, topic).last()
            &&& stats.root_type == first_type_on(sightings, topic)
            &&& stats.topic == topic
        },
        !sighted(sightings).dom().contains(topic) ==> bytes_on(sightings, topic) == 0
            && first_type_on(sightings, topic) is None,
    decreases sightings.len(),
{
    if sightings.len() > 0 {
        every_topic_adds_up_its_samples(sightings.drop_last(), topic);
    }
}

/// A sample with a valid value contract is counted on its topic, under the wire type of the
/// contract, and nothing else changes; of any other only the reason for its rejection is
/// noted. An observer that fails, and an admin space that does not answer, are noted with
/// nothing else changed; one that answers replaces all its entries and ends the error.
pub proof fn only_contracted_samples_are_counted(
    state: StateView,
    sightings: Seq<Sighting>,
    topic: Seq<char>,
    encoding: Seq<char>,
    payload_len: usize,
    now_ms: u64,
    message: Seq<char>,
    entries: Map<Seq<char>, Seq<char>>,
)
    requires
        state.topics == sighted(sightings),
    ensures
        ({
            let after = state.received(topic, encoding, payload_len, now_ms);
            &&& after.connect == state.connect
            &&& after.keyexpr == state.keyexpr
            &&& after.admin_entries == state.admin_entries
            &&& after.last_admin_poll_ms == state.last_admin_poll_ms
            &&& after.admin_error == state.admin_error
            &&& match contracted(encoding) {
                Some(known) => after.last_error == state.last_error && after.topics == sighted(
                    sightings.push(
                        Sighting {
                            topic,
                            payload_len,
                            root_type: Some(known.wire_type@),
                            now_ms,
                        },
                    ),
                ),
                None => after.topics == state.topics && after.last_error == Some(
                    "rejecting "@ + topic + ": "@ + contract_error(encoding),
                ),
            }
        }),
        ({
            let after = state.failed(message);
            &&& after.last_error == Some(message)
            &&& after.topics == state.topics
            &&& after.admin_entries == state.admin_entries
            &&& after.admin_error == state.admin_error
            &&& after.last_admin_poll_ms == state.last_admin_poll_ms
            &&& after.connect == state.connect && after.keyexpr == state.keyexpr
        }),
        ({
            let after = state.not_answered(message);
            &&& after.admin_error == Some(message)
            &&& after.topics == state.topics
            &&& after.admin_entries == state.admin_entries
            &&& after.last_error == state.last_error
            &&& after.last_admin_poll_ms == state.last_admin_poll_ms
            &&& after.connect == state.connect && after.keyexpr == state.keyexpr
        }),
        ({
            let after = state.polled(entries, now_ms);
            &&& after.admin_error is None
            &&& after.admin_entries == entries
            &&& after.last_admin_poll_ms == now_ms
            &&& after.topics == state.topics
            &&& after.last_error == state.last_error
            &&& after.connect == state.connect && after.keyexpr == state.keyexpr
        }),
{
    if let Some(known) = contracted(encoding) {
        let last = Sighting { topic, payload_len, root_type: Some(known.wire_type@), now_ms };
        let all = sightings.push(last);
        assert(all.drop_last() =~= sightings);
        assert(all.last() == last);
    }
}

/// A reply of the admin space changes what is under one key, and nothing under any other:
/// an entry under its own, a refusal and a failure under keys for these. After an entry or
/// a refusal more replies are waited for, after a failure or the end none.
pub proof fn reply_changes_one_entry(
    entries: Map<Seq<char>, Seq<char>>,
    reply: AdminReply,
    other: Seq<char>,
)
    ensures
        match reply {
            AdminReply::Entry { key, payload } => replied(entries, reply).1 && replied(
                entries,
                reply,
            ).0.dom().contains(key@) && replied(entries, reply).0[key@] == lossy_text(payload@)
                && (other != key@ ==> entry(replied(entries, reply).0, other) == entry(
                entries,
                other,
            )),
            AdminReply::Refusal { error } => replied(entries, reply).1 && replied(
                entries,
                reply,
            ).0.dom().contains("@error/reply"@) && replied(entries, reply).0["@error/reply"@]
                == error@ && (other != "@error/reply"@ ==> entry(
                replied(entries, reply).0,
                other,
            ) == entry(entries, other)),
            AdminReply::Failure { error } => !replied(entries, reply).1 && replied(
                entries,
                reply,
            ).0.dom().contains("@error/recv"@) && replied(entries, reply).0["@error/recv"@]
                == error@ && (other != "@error/recv"@ ==> entry(
                replied(entries, reply).0,
                other,
            ) == entry(entries, other)),
            AdminReply::End => replied(entries, reply) == (entries, false),
        },
{
}

proof fn lemma_listed_links(shape: Shape, mode: Seq<char>, items: Seq<Json>)
    ensures
        with_listed(shape, mode, items).links == shape.links,
        forall|k: int|
            0 <= k < items.len() ==> (#[trigger] items[k] matches Json::Text(zid) ==> with_listed(
                shape,
                mode,
                items,
            ).nodes.dom().contains(node_id_of(mode, zid))),
    decreases items.len(),
{
    if items.len() > 0 {
        let before = items.drop_last();
        lemma_listed_links(shape, mode, before);
        assert forall|k: int| 0 <= k < items.len() implies (#[trigger] items[k] matches Json::Text(
            zid,
        ) ==> with_listed(shape, mode, items).nodes.dom().contains(node_id_of(mode, zid))) by {
            if k < before.len() {
                assert(before[k] == items[k]);
            }
        }
    }
}

/// The link of a session from a router.
pub open spec fn session_link(router_id: Seq<char>, session: Json, link: LinkView) -> bool {
    &&& text_field_of(session, "peer"@) is Some
    &&& link.source == router_id
    &&& link.target == node_id_of(
        text_or(text_field_of(session, "whatami"@), "client"@),
        text_field_of(session, "peer"@)->Some_0,
    )
}

proof fn lemma_session_links(shape: Shape, router_id: Seq<char>, sessions: Seq<Json>, k: int)
    requires
        0 <= k < sessions.len(),
        text_field_of(sessions[k], "peer"@) is Some,
    ensures
        exists|i: int|
            0 <= i < with_sessions(shape, router_id, sessions).links.len() && session_link(
                router_id,
                sessions[k],
                #[trigger] with_sessions(shape, router_id, sessions).links[i],
            ),
    decreases sessions.len(),
{
    let before = sessions.drop_last();
    let was = with_sessions(shape, router_id, before);
    let now = with_sessions(shape, router_id, sessions);
    if k < before.len() {
        assert(before[k] == sessions[k]);
        lemma_session_links(shape, router_id, before, k);
        let i = choose|i: int|
            0 <= i < was.links.len() && session_link(
                router_id,
                sessions[k],
                #[trigger] was.links[i],
            );
        assert(now.links[i] == was.links[i]);
    } else {
        assert(session_link(router_id, sessions[k], now.links[now.links.len() - 1]));
    }
}

proof fn lemma_links_stay_with_sessions(
    shape: Shape,
    router_id: Seq<char>,
    sessions: Seq<Json>,
)
    ensures
        shape.links.is_prefix_of(with_sessions(shape, router_id, sessions).links),
    decreases sessions.len(),
{
    if sessions.len() > 0 {
        lemma_links_stay_with_sessions(shape, router_id, sessions.drop_last());
        let was = with_sessions(shape, router_id, sessions.drop_last()).links;
        let now = with_sessions(shape, router_id, sessions).links;
        assert(now.take(shape.links.len() as int) =~= was.take(shape.links.len() as int));
    }
}

proof fn lemma_links_stay_with_report(shape: Shape, report: Json)
    ensures
        shape.links.is_prefix_of(with_report(shape, report).links),
{
    let zid = text_field_of(report, "zid"@);
    let reporter = match (zid, text_field_of(report, "whatami"@)) {
        (Some(zid), Some(whatami)) => with_node(shape, admin_node(whatami, zid, zid)),
        _ => shape,
    };
    lemma_list_field_links(reporter, report, "routers"@, "router"@);
    let routers = with_list_field(reporter, report, "routers"@, "router"@);
    lemma_list_field_links(routers, report, "peers"@, "peer"@);
    let peers = with_list_field(routers, report, "peers"@, "peer"@);
    lemma_list_field_links(peers, report, "clients"@, "client"@);
    let clients = with_list_field(peers, report, "clients"@, "client"@);
    if let (Some(zid), Some(sessions)) = (zid, list_field_of(report, "sessions"@)) {
        lemma_links_stay_with_sessions(
            with_node(clients, admin_node("router"@, zid, zid)),
            node_id_of("router"@, zid),
            sessions,
        );
    }
}

proof fn lemma_list_field_links(shape: Shape, report: Json, field: Seq<char>, mode: Seq<char>)
    ensures
        with_list_field(shape, report, field, mode).links == shape.links,
{
    if let Some(items) = list_field_of(report, field) {
        lemma_listed_links(shape, mode, items);
    }
}

proof fn lemma_links_stay_with_reports(shape: Shape, payloads: Seq<Seq<char>>)
    ensures
        shape.links.is_prefix_of(with_reports(shape, payloads).links),
    decreases payloads.len(),
{
    if payloads.len() > 0 {
        let before = with_reports(shape, payloads.drop_last());
        lemma_links_stay_with_reports(shape, payloads.drop_last());
        if let Some(report) = parsed_json(payloads.last()) {
            lemma_links_stay_with_report(before, report);
            let now = with_report(before, report).links;
            assert(now.take(shape.links.len() as int) =~= before.links.take(
                shape.links.len() as int,
            ));
        }
    }
}

proof fn lemma_links_stay_with_entities(shape: Shape, entities: Seq<EntityView>)
    ensures
        shape.links.is_prefix_of(with_entities(shape, entities).links),
    decreases entities.len(),
{
    if entities.len() > 0 {
        let before = with_entities(shape, entities.drop_last());
        lemma_links_stay_with_entities(shape, entities.drop_last());
        let now = with_entity(before, entities.last()).links;
        assert(now.take(shape.links.len() as int) =~= before.links.take(
            shape.links.len() as int,
        ));
    }
}

proof fn lemma_topic_links(connect: Seq<char>, topics: Seq<StatsView>, now_ms: u64)
    ensures
        ({
            let links = with_topics(bare_shape(connect), topics, now_ms).links;
            &&& links.len() == topics.len()
            &&& forall|i: int|
                0 <= i < topics.len() ==> #[trigger] links[i] == (LinkView {
                    source: "zenoh"@,
                    target: "topic:"@ + topics[i].topic,
                    label: decimal(topics[i].messages as nat) + " msg"@,
                    kind: "traffic"@,
                })
        }),
    decreases topics.len(),
{
    if topics.len() > 0 {
        lemma_topic_links(connect, topics.drop_last(), now_ms);
        let was = with_topics(bare_shape(connect), topics.drop_last(), now_ms).links;
        let links = with_topics(bare_shape(connect), topics, now_ms).links;
        assert forall|i: int| 0 <= i < topics.len() implies #[trigger] links[i] == (LinkView {
            source: "zenoh"@,
            target: "topic:"@ + topics[i].topic,
            label: decimal(topics[i].messages as nat) + " msg"@,
            kind: "traffic"@,
        }) by {
            if i < was.len() {
                assert(links[i] == was[i]);
                assert(topics.drop_last()[i] == topics[i]);
            }
        }
    }
}

/// What a report of the admin space names is in the graph: who reports, the routers, peers
/// and clients that it lists, and a link from the reporter to the other end of each of its
/// sessions. What was in the graph before stays as it was.
pub proof fn report_puts_its_network_in_the_graph(shape: Shape, report: Json)
    requires
        sound(shape),
    ensures
        ({
            let after = with_report(shape, report);
            let zid = text_field_of(report, "zid"@);
            &&& keeps_nodes(shape, after)
            &&& shape.links.is_prefix_of(after.links)
            &&& zid is Some && text_field_of(report, "whatami"@) is Some
                ==> after.nodes.dom().contains(
                node_id_of(text_field_of(report, "whatami"@)->Some_0, zid->Some_0),
            )
            &&& list_field_of(report, "routers"@) matches Some(items) ==> forall|k: int|
                0 <= k < items.len() ==> (#[trigger] items[k] matches Json::Text(z)
                    ==> after.nodes.dom().contains("router"@ + ":"@ + z))
            &&& list_field_of(report, "peers"@) matches Some(items) ==> forall|k: int|
                0 <= k < items.len() ==> (#[trigger] items[k] matches Json::Text(z)
                    ==> after.nodes.dom().contains("peer"@ + ":"@ + z))
            &&& list_field_of(report, "clients"@) matches Some(items) ==> forall|k: int|
                0 <= k < items.len() ==> (#[trigger] items[k] matches Json::Text(z)
                    ==> after.nodes.dom().contains("client"@ + ":"@ + z))
            &&& zid is Some && list_field_of(report, "sessions"@) is Some
                ==> after.nodes.dom().contains("router"@ + ":"@ + zid->Some_0)
            &&& zid is Some ==> (list_field_of(report, "sessions"@) matches Some(sessions)
                ==> forall|k: int|
                0 <= k < sessions.len() && text_field_of(#[trigger] sessions[k], "peer"@) is Some
                    ==> exists|i: int|
                    0 <= i < after.links.len() && session_link(
                        "router"@ + ":"@ + zid->Some_0,
                        sessions[k],
                        #[trigger] after.links[i],
                    ))
        }),
{
    let zid = text_field_of(report, "zid"@);
    let whatami = text_field_of(report, "whatami"@);
    let reporter = match (zid, whatami) {
        (Some(zid), Some(whatami)) => with_node(shape, admin_node(whatami, zid, zid)),
        _ => shape,
    };
    if let (Some(zid), Some(whatami)) = (zid, whatami) {
        lemma_with_node(shape, admin_node(whatami, zid, zid));
    }
    let routers = with_list_field(reporter, report, "routers"@, "router"@);
    lemma_with_list_field(reporter, report, "routers"@, "router"@);
    let peers = with_list_field(routers, report, "peers"@, "peer"@);
    lemma_with_list_field(routers, report, "peers"@, "peer"@);
    let clients = with_list_field(peers, report, "clients"@, "client"@);
    lemma_with_list_field(peers, report, "clients"@, "client"@);
    if let Some(items) = list_field_of(report, "routers"@) {
        lemma_listed_links(reporter, "router"@, items);
    }
    if let Some(items) = list_field_of(report, "peers"@) {
        lemma_listed_links(routers, "peer"@, items);
    }
    if let Some(items) = list_field_of(report, "clients"@) {
        lemma_listed_links(peers, "client"@, items);
    }
    let after = with_report(shape, report);
    if let (Some(zid), Some(sessions)) = (zid, list_field_of(report, "sessions"@)) {
        let node = admin_node("router"@, zid, zid);
        lemma_with_node(clients, node);
        let start = with_node(clients, node);
        let router_id = node_id_of("router"@, zid);
        lemma_with_sessions(start, router_id, sessions);
        assert forall|k: int|
            0 <= k < sessions.len() && text_field_of(
                #[trigger] sessions[k],
                "peer"@,
            ) is Some implies exists|i: int|
            0 <= i < after.links.len() && session_link(
                "router"@ + ":"@ + zid,
                sessions[k],
                #[trigger] after.links[i],
            ) by {
            lemma_session_links(start, router_id, sessions, k);
        }
    }
    lemma_with_report(shape, report);
    lemma_links_stay_with_report(shape, report);
    assert(keeps_nodes(clients, after));
}

/// What is declared is in the graph: the node that declares it, linked to a node for what
/// it declares; and for a publisher or subscriber the topic, linked in the direction of the
/// data, which is that of the data from a publisher to the topic, and from the topic to a
/// subscriber. Nothing else is linked, and nothing that was there changes.
pub proof fn declaration_is_linked_in_the_direction_of_the_data(
    shape: Shape,
    entity: EntityView,
)
    requires
        sound(shape),
    ensures
        ({
            let after = with_entity(shape, entity);
            let declarer = node_id_of(entity.mode, entity.zid);
            let declared = "admin:"@ + entity.kind + ":"@ + entity.zid + ":"@ + replaced(
                entity.expr,
                '/',
                '_',
            );
            let topic = "topic:"@ + entity.expr;
            let first = LinkView {
                source: declarer,
                target: declared,
                label: "admin"@,
                kind: "admin"@,
            };
            &&& keeps_nodes(shape, after)
            &&& after.nodes.dom().contains(declarer)
            &&& after.nodes.dom().contains(declared)
            &&& entity.kind == "publisher"@ || entity.kind == "subscriber"@
                ==> after.nodes.dom().contains(topic)
            &&& after.links == shape.links + if entity.kind == "publisher"@ {
                seq![
                    first,
                    LinkView {
                        source: declared,
                        target: topic,
                        label: "publisher"@,
                        kind: "publisher"@,
                    },
                ]
            } else if entity.kind == "subscriber"@ {
                seq![
                    first,
                    LinkView {
                        source: topic,
                        target: declared,
                        label: "subscriber"@,
                        kind: "subscriber"@,
                    },
                ]
            } else {
                seq![first]
            }
        }),
{
    lemma_with_entity(shape, entity);
    let after = with_entity(shape, entity);
    let first = LinkView {
        source: node_id_of(entity.mode, entity.zid),
        target: entity_node_id(entity),
        label: "admin"@,
        kind: "admin"@,
    };
    if entity.kind == "publisher"@ || entity.kind == "subscriber"@ {
        assert(after.links =~= shape.links + seq![first, after.links.last()]);
    } else {
        assert(after.links =~= shape.links + seq![first]);
    }
}

/// A topic that is declared and was not observed is in the graph as stale and without
/// traffic; what is declared has a node of its kind that names its expression.
pub proof fn declared_nodes_carry_no_traffic(topic: Seq<char>, entity: EntityView)
    ensures
        ({
            let node = declared_topic_node(topic);
            &&& node.id == "topic:"@ + topic
            &&& node.label == topic
            &&& node.kind == "topic"@
            &&& node.detail == "declared in Zenoh admin space"@
            &&& node.messages == 0 && node.bytes == 0 && node.recent == 0
            &&& node.stale
        }),
        ({
            let node = entity_node(entity);
            &&& node.id == "admin:"@ + entity.kind + ":"@ + entity.zid + ":"@ + replaced(
                entity.expr,
                '/',
                '_',
            )
            &&& node.label == entity.kind && node.kind == entity.kind
            &&& node.detail == entity.expr
            &&& node.messages == 0 && node.bytes == 0 && node.recent == 0
            &&& !node.stale
        }),
{
}

impl GraphState {
    /// A snapshot tells of a topic the samples that were seen of it: in its node their
    /// number and bytes, how many of them lie within five seconds of the last, the type, and
    /// whether the last lies more than five seconds back; the same in the table of the
    /// topics, with the bytes and the age of the last; and a link from the transport with
    /// their number.
    pub proof fn snapshot_tells_of_the_traffic(
        &self,
        snapshot: GraphSnapshot,
        sightings: Seq<Sighting>,
        now_ms: u64,
        topic: Seq<char>,
    )
        requires
            self.wf(),
            self@.topics == sighted(sightings),
            clocked(sightings),
            sightings.len() <= u64::MAX,
            bytes_on(sightings, topic) <= u64::MAX,
            times_on(sightings, topic).len() > 0,
            exists|
                topic_names: Seq<Seq<char>>,
                topics: Seq<StatsView>,
                admin_keys: Seq<Seq<char>>,
                admin_payloads: Seq<Seq<char>>,
            | #[trigger]
                tells_of(
                    snapshot,
                    self@,
                    topic_names,
                    topics,
                    admin_keys,
                    admin_payloads,
                    now_ms,
                ),
        ensures
            ({
                let times = times_on(sightings, topic);
                let last = times.last();
                let recent = times.filter(|time: u64| last - time <= 5_000);
                &&& exists|k: int|
                    {
                        let node = #[trigger] snapshot.nodes@[k];
                        &&& 0 <= k < snapshot.nodes@.len()
                        &&& node.id@ == "topic:"@ + topic
                        &&& node.label@ == topic
                        &&& node.kind@ == "topic"@
                        &&& node.detail@ == match first_type_on(sightings, topic) {
                            Some(root_type) => root_type,
                            None => "unknown payload"@,
                        }
                        &&& node.messages == times.len()
                        &&& node.bytes == bytes_on(sightings, topic)
                        &&& node.recent == recent.len()
                        &&& node.stale == (now_ms - last > 5_000)
                    }
                &&& exists|k: int|
                    {
                        let row = #[trigger] snapshot.topics@[k];
                        &&& 0 <= k < snapshot.topics@.len()
                        &&& row.topic@ == topic
                        &&& opt_view(row.root_type) == first_type_on(sightings, topic)
                        &&& row.messages == times.len()
                        &&& row.bytes == bytes_on(sightings, topic)
                        &&& row.last_payload_bytes == last_bytes_on(sightings, topic)
                        &&& row.age_ms == if now_ms > last {
                            now_ms - last
                        } else {
                            0
                        }
                        &&& row.recent == recent.len()
                    }
                &&& exists|k: int|
                    {
                        let link = #[trigger] snapshot.links@[k];
                        &&& 0 <= k < snapshot.links@.len()
                        &&& link.source@ == "zenoh"@
                        &&& link.target@ == "topic:"@ + topic
                        &&& link.label@ == decimal(times.len()) + " msg"@
                        &&& link.kind@ == "traffic"@
                    }
            }),
            snapshot.uptime_ms == now_ms,
            snapshot.connect@ == self@.connect,
            snapshot.observed_keyexpr@ == self@.keyexpr,
            snapshot.admin_entries == self@.admin_entries.dom().len(),
            snapshot.last_admin_poll_ms == self@.last_admin_poll_ms,
            opt_view(snapshot.last_error) == self@.last_error,
            opt_view(snapshot.admin_error) == self@.admin_error,
            snapshot.topics@.len() == self@.topics.dom().len(),
    {
        every_topic_keeps_its_window(sightings, topic);
        every_topic_adds_up_its_samples(sightings, topic);
        let (names, topics, admin_keys, admin_payloads) = choose|
            topic_names: Seq<Seq<char>>,
            topics: Seq<StatsView>,
            admin_keys: Seq<Seq<char>>,
            admin_payloads: Seq<Seq<char>>,
        | #[trigger]
            tells_of(
                snapshot,
                self@,
                topic_names,
                topics,
                admin_keys,
                admin_payloads,
                now_ms,
            );
        let stats = self@.topics[topic];
        let times = times_on(sightings, topic);
        let last = times.last();
        let recent = times.filter(|time: u64| last - time <= 5_000);
        assert(stats.recent == recent) by {
            let wide = |time: u64| stats.last_seen_ms - time <= RECENT_MS;
            let same = |time: u64| last - time <= 5_000;
            assert(wide =~= same);
        }
        self.snapshot_shows_observed(snapshot, now_ms, topic);
        let nodes = node_views(snapshot.nodes@);
        let k = nodes.index_of(topic_node(stats, now_ms));
        assert(snapshot.nodes@[k]@ == nodes[k]);
        assert(names.contains(topic));
        let index = names.index_of(topic);
        assert(topics[index] == stats);
        assert(tells(snapshot.topics@[index], topics[index], now_ms));
        let observed = with_topics(bare_shape(self@.connect), topics, now_ms);
        let reported = with_reports(observed, admin_payloads);
        let shape = with_entities(reported, entities_of(admin_keys));
        lemma_topic_links(self@.connect, topics, now_ms);
        lemma_links_stay_with_reports(observed, admin_payloads);
        lemma_links_stay_with_entities(reported, entities_of(admin_keys));
        assert(observed.links[index] == reported.links.take(observed.links.len() as int)[index]);
        assert(reported.links[index] == shape.links.take(reported.links.len() as int)[index]);
        let views = link_views(snapshot.links@);
        assert(views == shape.links);
        assert(snapshot.links@[index]@ == views[index]);
        self.topics.lemma_len();
        self.topics.lemma_lists();
        crate::ordered::listing_unique(
            names,
            topics,
            self.topics.key_list(),
            self.topics.value_list(),
            self@.topics,
        );
    }
}

/// What the topics, reports and declarations add to a graph, they add one after the other:
/// each run of them to what the run before left.
pub proof fn graph_is_built_step_by_step(
    shape: Shape,
    topics: Seq<StatsView>,
    more_topics: Seq<StatsView>,
    payloads: Seq<Seq<char>>,
    more_payloads: Seq<Seq<char>>,
    entities: Seq<EntityView>,
    more_entities: Seq<EntityView>,
    now_ms: u64,
)
    ensures
        with_topics(shape, topics + more_topics, now_ms) == with_topics(
            with_topics(shape, topics, now_ms),
            more_topics,
            now_ms,
        ),
        with_reports(shape, payloads + more_payloads) == with_reports(
            with_reports(shape, payloads),
            more_payloads,
        ),
        with_entities(shape, entities + more_entities) == with_entities(
            with_entities(shape, entities),
            more_entities,
        ),
        topics.len() == 1 ==> with_topics(shape, topics, now_ms) == with_topic(
            shape,
            topics[0],
            now_ms,
        ),
        payloads.len() == 1 ==> with_reports(shape, payloads) == match parsed_json(payloads[0]) {
            Some(report) => with_report(shape, report),
            None => shape,
        },
        entities.len() == 1 ==> with_entities(shape, entities) == with_entity(shape, entities[0]),
    decreases more_topics.len() + more_payloads.len() + more_entities.len(),
{
    if topics.len() == 1 {
        assert(topics.drop_last() =~= seq![]);
        assert(with_topics(shape, topics.drop_last(), now_ms) == shape);
    }
    if payloads.len() == 1 {
        assert(payloads.drop_last() =~= seq![]);
        assert(with_reports(shape, payloads.drop_last()) == shape);
    }
    if entities.len() == 1 {
        assert(entities.drop_last() =~= seq![]);
        assert(with_entities(shape, entities.drop_last()) == shape);
    }
    if more_topics.len() > 0 {
        let rest = more_topics.drop_last();
        let all = topics + more_topics;
        assert(all.drop_last() =~= topics + rest);
        assert(all.last() == more_topics.last());
        graph_is_built_step_by_step(
            shape,
            topics,
            rest,
            payloads,
            more_payloads,
            entities,
            more_entities,
            now_ms,
        );
    } else if more_payloads.len() > 0 {
        let rest = more_payloads.drop_last();
        let all = payloads + more_payloads;
        assert(all.drop_last() =~= payloads + rest);
        assert(all.last() == more_payloads.last());
        graph_is_built_step_by_step(
            shape,
            topics,
            more_topics,
            payloads,
            rest,
            entities,
            more_entities,
            now_ms,
        );
    } else if more_entities.len() > 0 {
        let rest = more_entities.drop_last();
        let all = entities + more_entities;
        assert(all.drop_last() =~= entities + rest);
        assert(all.last() == more_entities.last());
        graph_is_built_step_by_step(
            shape,
            topics,
            more_topics,
            payloads,
            more_payloads,
            entities,
            rest,
            now_ms,
        );
    }
    assert(topics + Seq::<StatsView>::empty() =~= topics);
    assert(payloads + Seq::<Seq<char>>::empty() =~= payloads);
    assert(entities + Seq::<EntityView>::empty() =~= entities);
    assert(more_topics.len() == 0 ==> topics + more_topics =~= topics);
    assert(more_payloads.len() == 0 ==> payloads + more_payloads =~= payloads);
    assert(more_entities.len() == 0 ==> entities + more_entities =~= entities);
}

/// Whether a graph has all that another has, its links in the same places.
pub open spec fn holds(after: Shape, part: Shape) -> bool {
    keeps_nodes(part, after) && part.links.is_prefix_of(after.links)
}

proof fn lemma_holds_transitive(a: Shape, b: Shape, c: Shape)
    requires
        holds(b, a),
        holds(c, b),
    ensures
        holds(c, a),
{
    assert(c.links.take(a.links.len() as int) =~= b.links.take(a.links.len() as int));
}

/// The graph of a network has what every report of the admin space adds to some graph.
pub proof fn network_holds_every_report(
    connect: Seq<char>,
    topics: Seq<StatsView>,
    admin_keys: Seq<Seq<char>>,
    admin_payloads: Seq<Seq<char>>,
    now_ms: u64,
    index: int,
) -> (before: Shape)
    requires
        0 <= index < admin_payloads.len(),
        parsed_json(admin_payloads[index]) is Some,
    ensures
        sound(before),
        holds(
            network(connect, topics, admin_keys, admin_payloads, now_ms),
            with_report(before, parsed_json(admin_payloads[index])->Some_0),
        ),
{
    let report = parsed_json(admin_payloads[index])->Some_0;
    let observed = with_topics(bare_shape(connect), topics, now_ms);
    let reported = with_reports(observed, admin_payloads);
    let entities = entities_of(admin_keys);
    let first = admin_payloads.take(index);
    let one = seq![admin_payloads[index]];
    let rest = admin_payloads.skip(index + 1);
    assert(admin_payloads =~= first + one + rest);
    let before = with_reports(observed, first);
    let added = with_report(before, report);
    let none = Seq::<StatsView>::empty();
    let nobody = Seq::<EntityView>::empty();
    lemma_with_topics(connect, topics, now_ms);
    lemma_with_reports(observed, first);
    lemma_with_report(before, report);
    assert(reported == with_reports(added, rest)) by {
        graph_is_built_step_by_step(
            observed,
            none,
            none,
            first + one,
            rest,
            nobody,
            nobody,
            now_ms,
        );
        graph_is_built_step_by_step(observed, none, none, first, one, nobody, nobody, now_ms);
        graph_is_built_step_by_step(before, none, none, one, rest, nobody, nobody, now_ms);
    }
    lemma_with_reports(added, rest);
    lemma_links_stay_with_reports(added, rest);
    lemma_with_entities(reported, entities);
    lemma_links_stay_with_entities(reported, entities);
    lemma_holds_transitive(added, reported, with_entities(reported, entities));
    before
}

/// The graph of a network has what every declaration of the admin space adds to some graph.
pub proof fn network_holds_every_declaration(
    connect: Seq<char>,
    topics: Seq<StatsView>,
    admin_keys: Seq<Seq<char>>,
    admin_payloads: Seq<Seq<char>>,
    now_ms: u64,
    index: int,
) -> (before: Shape)
    requires
        0 <= index < admin_keys.len(),
        crate::admin::entity_of(admin_keys[index]) is Some,
    ensures
        sound(before),
        holds(
            network(connect, topics, admin_keys, admin_payloads, now_ms),
            with_entity(before, crate::admin::entity_of(admin_keys[index])->Some_0),
        ),
{
    let entity = crate::admin::entity_of(admin_keys[index])->Some_0;
    let observed = with_topics(bare_shape(connect), topics, now_ms);
    let reported = with_reports(observed, admin_payloads);
    let first = admin_keys.take(index);
    let one = seq![admin_keys[index]];
    let rest = admin_keys.skip(index + 1);
    let a = entities_of(first);
    let b = seq![entity];
    let c = entities_of(rest);
    assert(entities_of(admin_keys) =~= a + b + c) by {
        assert(admin_keys =~= first + (one + rest));
        crate::admin::entities_are_read_key_by_key(first, one + rest);
        crate::admin::entities_are_read_key_by_key(one, rest);
    }
    let before = with_entities(reported, a);
    let added = with_entity(before, entity);
    let none = Seq::<StatsView>::empty();
    let nothing = Seq::<Seq<char>>::empty();
    lemma_with_topics(connect, topics, now_ms);
    lemma_with_reports(observed, admin_payloads);
    lemma_with_entities(reported, a);
    lemma_with_entity(before, entity);
    assert(with_entities(reported, entities_of(admin_keys)) == with_entities(added, c)) by {
        graph_is_built_step_by_step(reported, none, none, nothing, nothing, a + b, c, now_ms);
        graph_is_built_step_by_step(reported, none, none, nothing, nothing, a, b, now_ms);
        graph_is_built_step_by_step(before, none, none, nothing, nothing, b, c, now_ms);
    }
    lemma_with_entities(added, c);
    lemma_links_stay_with_entities(added, c);
    before
}

/// The transport is in the graph of every network, under the address of the router, with no
/// traffic of its own.
pub proof fn network_has_its_transport(
    connect: Seq<char>,
    topics: Seq<StatsView>,
    admin_keys: Seq<Seq<char>>,
    admin_payloads: Seq<Seq<char>>,
    now_ms: u64,
)
    ensures
        ({
            let nodes = network(connect, topics, admin_keys, admin_payloads, now_ms).nodes;
            &&& nodes.dom().contains("zenoh"@)
            &&& nodes["zenoh"@] == (NodeView {
                id: "zenoh"@,
                label: "Zenoh"@,
                kind: "transport"@,
                detail: connect,
                messages: 0,
                bytes: 0,
                recent: 0,
                stale: false,
            })
        }),
{
    let observed = with_topics(bare_shape(connect), topics, now_ms);
    lemma_with_topics(connect, topics, now_ms);
    lemma_transport_stays(connect, topics, now_ms);
    lemma_with_reports(observed, admin_payloads);
    lemma_with_entities(with_reports(observed, admin_payloads), entities_of(admin_keys));
    assert(observed.nodes.dom().contains("zenoh"@));
    assert(with_reports(observed, admin_payloads).nodes.dom().contains("zenoh"@));
}

proof fn lemma_transport_stays(connect: Seq<char>, topics: Seq<StatsView>, now_ms: u64)
    ensures
        with_topics(bare_shape(connect), topics, now_ms).nodes.dom().contains("zenoh"@),
        with_topics(bare_shape(connect), topics, now_ms).nodes["zenoh"@] == transport_node(connect),
    decreases topics.len(),
{
    if topics.len() > 0 {
        lemma_transport_stays(connect, topics.drop_last(), now_ms);
        let id = topic_node_id(topics.last().topic);
        reveal_strlit("topic:");
        reveal_strlit("zenoh");
        assert(id[0] == 't');
        assert("zenoh"@[0] == 'z');
    }
}

/// The counters of a topic take a sample exactly if neither the number of its samples nor
/// that of their bytes then passes what 64 bits hold.
pub proof fn counters_take_what_fits(stats: StatsView, payload_len: usize)
    ensures
        takes_sample(None, payload_len),
        takes_sample(Some(stats), payload_len) <==> stats.messages + 1 <= 0xffff_ffff_ffff_ffff
            && stats.bytes + payload_len <= 0xffff_ffff_ffff_ffff,
{
}

} // verus!
