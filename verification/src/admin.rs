//! What the zenoh admin space tells of a network: its routers, peers and clients, their
//! sessions, and what they declare.

use serde_json::Value;
use vstd::prelude::*;
use vstd::string::*;
use vstd::utf8::*;

use crate::json::{
    json_of, json_text, list_field, list_field_of, parse_json, parsed_json, string_field,
    text_field_of, Json,
};
use crate::ordered::OrderedMap;
use crate::text::{
    chars_of, join, joined, joined_runs_meet_at_a_separator, opt_view, pieces,
    pieces_make_up_the_text, pieces_of_texts_that_meet, same, split, views,
};

verus! {

/// A node of the graph.
#[derive(Debug)]
pub struct GraphNode {
    pub id: String,
    pub label: String,
    pub kind: String,
    pub detail: String,
    pub messages: u64,
    pub bytes: u64,
    /// The messages of the last five seconds.
    pub recent: u64,
    pub stale: bool,
}

/// The contents of a [`GraphNode`].
pub struct NodeView {
    pub id: Seq<char>,
    pub label: Seq<char>,
    pub kind: Seq<char>,
    pub detail: Seq<char>,
    pub messages: u64,
    pub bytes: u64,
    pub recent: u64,
    pub stale: bool,
}

impl View for GraphNode {
    type V = NodeView;

    open spec fn view(&self) -> NodeView {
        NodeView {
            id: self.id@,
            label: self.label@,
            kind: self.kind@,
            detail: self.detail@,
            messages: self.messages,
            bytes: self.bytes,
            recent: self.recent,
            stale: self.stale,
        }
    }
}

/// A link of the graph, from one node to another.
#[derive(Debug)]
pub struct GraphLink {
    pub source: String,
    pub target: String,
    pub label: String,
    pub kind: String,
}

/// The contents of a [`GraphLink`].
pub struct LinkView {
    pub source: Seq<char>,
    pub target: Seq<char>,
    pub label: Seq<char>,
    pub kind: Seq<char>,
}

impl View for GraphLink {
    type V = LinkView;

    open spec fn view(&self) -> LinkView {
        LinkView {
            source: self.source@,
            target: self.target@,
            label: self.label@,
            kind: self.kind@,
        }
    }
}

/// The contents of a list of links.
pub open spec fn link_views(links: Seq<GraphLink>) -> Seq<LinkView> {
    links.map_values(|link: GraphLink| link@)
}

/// A graph: its nodes by their ids, and its links in the order in which they were found.
pub struct Shape {
    pub nodes: Map<Seq<char>, NodeView>,
    pub links: Seq<LinkView>,
}

/// The graph with a node, unless it has one with that id.
pub open spec fn with_node(shape: Shape, node: NodeView) -> Shape {
    Shape {
        nodes: if shape.nodes.dom().contains(node.id) {
            shape.nodes
        } else {
            shape.nodes.insert(node.id, node)
        },
        links: shape.links,
    }
}

/// The graph with one more link.
pub open spec fn with_link(shape: Shape, link: LinkView) -> Shape {
    Shape { nodes: shape.nodes, links: shape.links.push(link) }
}

/// The number of bytes of a character in UTF-8.
pub open spec fn char_size(c: char) -> nat {
    if c as u32 <= 0x7f {
        1
    } else if c as u32 <= 0x7ff {
        2
    } else if c as u32 <= 0xffff {
        3
    } else {
        4
    }
}

/// The number of bytes of a text in UTF-8.
pub open spec fn text_size(text: Seq<char>) -> nat
    decreases text.len(),
{
    if text.len() == 0 {
        0
    } else {
        char_size(text[0]) + text_size(text.drop_first())
    }
}

/// The longest start of a text that has at most `limit` bytes.
pub open spec fn start_within(text: Seq<char>, limit: nat) -> Seq<char>
    decreases text.len(),
{
    if text.len() == 0 || char_size(text[0]) > limit {
        seq![]
    } else {
        seq![text[0]] + start_within(text.drop_first(), (limit - char_size(text[0])) as nat)
    }
}

/// A text of more than `limit` bytes cut off there and marked with dots; any other text
/// as it is.
pub open spec fn shortened(text: Seq<char>, limit: nat) -> Seq<char> {
    if text_size(text) <= limit {
        text
    } else {
        start_within(text, limit) + "..."@
    }
}

fn size_of_char(c: char) -> (r: usize)
    ensures
        r == char_size(c),
{
    let code: u32 = c as u32;
    if code <= 0x7f {
        1
    } else if code <= 0x7ff {
        2
    } else if code <= 0xffff {
        3
    } else {
        4
    }
}

/// Cut a text off after `limit` bytes and mark that with dots. A character that is not
/// whole within the limit is left out.
pub fn shorten(value: &str, limit: usize) -> (r: String)
    ensures
        r@ == shortened(value@, limit as nat),
{
    let chars = chars_of(value);
    let mut start = String::new();
    let mut left: usize = limit;
    let mut i: usize = 0;
    assert(value@.skip(0) =~= value@);
    assert(start@ + start_within(value@, limit as nat) =~= start_within(value@, limit as nat));
    while i < chars.len()
        invariant
            i <= chars@.len(),
            chars@ == value@,
            left <= limit,
            start@ == value@.take(i as int),
            start@ + start_within(value@.skip(i as int), left as nat) == start_within(
                value@,
                limit as nat,
            ),
            text_size(value@) - limit == text_size(value@.skip(i as int)) - left,
        decreases chars.len() - i,
    {
        let c = chars[i];
        let size: usize = size_of_char(c);
        let ghost rest = value@.skip(i as int);
        assert(rest.drop_first() =~= value@.skip(i + 1));
        if size > left {
            assert(start@ + start_within(rest, left as nat) =~= start@);
            start.append("...");
            return start;
        }
        let ghost before = start@;
        start.push(c);
        left = left - size;
        i = i + 1;
        assert(before + (seq![c] + start_within(value@.skip(i as int), left as nat))
            =~= before.push(c) + start_within(value@.skip(i as int), left as nat));
    }
    value.to_owned()
}

/// The kind of a node of the network.
pub open spec fn kind_of(mode: Seq<char>) -> Seq<char> {
    if mode == "router"@ || mode == "peer"@ || mode == "client"@ {
        mode
    } else {
        "other"@
    }
}

/// The id of a node of the network.
pub open spec fn node_id_of(mode: Seq<char>, zid: Seq<char>) -> Seq<char> {
    kind_of(mode) + ":"@ + zid
}

/// A node without traffic.
pub open spec fn quiet_node(
    id: Seq<char>,
    label: Seq<char>,
    kind: Seq<char>,
    detail: Seq<char>,
    stale: bool,
) -> NodeView {
    NodeView { id, label, kind, detail, messages: 0, bytes: 0, recent: 0, stale }
}

/// A node of the network.
pub open spec fn admin_node(mode: Seq<char>, zid: Seq<char>, detail: Seq<char>) -> NodeView {
    quiet_node(
        node_id_of(mode, zid),
        kind_of(mode) + " "@ + shortened(zid, 8),
        kind_of(mode),
        detail,
        false,
    )
}

/// The kind of a node of the network.
pub fn admin_kind(mode: &str) -> (r: &str)
    ensures
        r@ == kind_of(mode@),
{
    if same(mode, "router") || same(mode, "peer") || same(mode, "client") {
        mode
    } else {
        "other"
    }
}

/// The id of a node of the network.
pub fn admin_node_id(mode: &str, zid: &str) -> (r: String)
    ensures
        r@ == node_id_of(mode@, zid@),
{
    let mut id = admin_kind(mode).to_owned();
    id.append(":");
    id.append(zid);
    id
}

pub(crate) fn make_quiet_node(
    id: String,
    label: String,
    kind: String,
    detail: String,
    stale: bool,
) -> (r: GraphNode)
    ensures
        r@ == quiet_node(id@, label@, kind@, detail@, stale),
{
    GraphNode { id, label, kind, detail, messages: 0, bytes: 0, recent: 0, stale }
}

/// Add a node of the network, unless there is one with its id.
pub fn insert_admin_node(
    nodes: &mut OrderedMap<GraphNode>,
    mode: &str,
    zid: &str,
    detail: String,
)
    requires
        old(nodes).wf(),
    ensures
        final(nodes).wf(),
        forall|links: Seq<LinkView>|
            (Shape { nodes: final(nodes)@, links }) == #[trigger] with_node(
                Shape { nodes: old(nodes)@, links },
                admin_node(mode@, zid@, detail@),
            ),
{
    let kind = admin_kind(mode);
    let mut label = kind.to_owned();
    label.append(" ");
    label.append(shorten(zid, 8).as_str());
    let id = admin_node_id(mode, zid);
    let node = make_quiet_node(id.clone(), label, kind.to_owned(), detail, false);
    nodes.insert_if_absent(id, node);
}

/// The graph with a node for every text of a list.
pub open spec fn with_listed(shape: Shape, mode: Seq<char>, items: Seq<Json>) -> Shape
    decreases items.len(),
{
    if items.len() == 0 {
        shape
    } else {
        let before = with_listed(shape, mode, items.drop_last());
        match items.last() {
            Json::Text(zid) => with_node(before, admin_node(mode, zid, zid)),
            _ => before,
        }
    }
}

/// The graph with the nodes of one mode that a report lists in a field.
pub open spec fn with_list_field(
    shape: Shape,
    report: Json,
    field: Seq<char>,
    mode: Seq<char>,
) -> Shape {
    match list_field_of(report, field) {
        Some(items) => with_listed(shape, mode, items),
        None => shape,
    }
}

/// What a session's transport is rendered as: each link with a source and a destination.
pub open spec fn rendered_links(items: Seq<Json>) -> Seq<Seq<char>>
    decreases items.len(),
{
    if items.len() == 0 {
        seq![]
    } else {
        let before = rendered_links(items.drop_last());
        match (text_field_of(items.last(), "src"@), text_field_of(items.last(), "dst"@)) {
            (Some(src), Some(dst)) => before.push(src + " -> "@ + dst),
            _ => before,
        }
    }
}

/// What the links of a session are rendered as, if it has any.
pub open spec fn session_links_of(session: Json) -> Option<Seq<char>> {
    match list_field_of(session, "links"@) {
        Some(items) => if rendered_links(items).len() == 0 {
            None
        } else {
            Some(joined(rendered_links(items), ", "@))
        },
        None => None,
    }
}

/// A text, or another in its place if it is missing.
pub open spec fn text_or(text: Option<Seq<char>>, other: Seq<char>) -> Seq<char> {
    match text {
        Some(text) => text,
        None => other,
    }
}

/// What is told of the other end of a session: its region and links, or its id.
pub open spec fn session_detail(session: Json, peer: Seq<char>) -> Seq<char> {
    let region = text_or(text_field_of(session, "region"@), ""@);
    match session_links_of(session) {
        Some(links) => if region.len() == 0 {
            links
        } else {
            region + "; "@ + links
        },
        None => if region.len() == 0 {
            peer
        } else {
            region
        },
    }
}

/// The graph with a session of a router: a node for the other end, and a link to it.
pub open spec fn with_session(shape: Shape, router_id: Seq<char>, session: Json) -> Shape {
    match text_field_of(session, "peer"@) {
        None => shape,
        Some(peer) => {
            let mode = text_or(text_field_of(session, "whatami"@), "client"@);
            let region = text_or(text_field_of(session, "region"@), ""@);
            with_link(
                with_node(shape, admin_node(mode, peer, session_detail(session, peer))),
                LinkView {
                    source: router_id,
                    target: node_id_of(mode, peer),
                    label: if region.len() == 0 {
                        "session"@
                    } else {
                        region
                    },
                    kind: "admin"@,
                },
            )
        },
    }
}

/// The graph with the sessions of a router.
pub open spec fn with_sessions(shape: Shape, router_id: Seq<char>, sessions: Seq<Json>) -> Shape
    decreases sessions.len(),
{
    if sessions.len() == 0 {
        shape
    } else {
        with_session(
            with_sessions(shape, router_id, sessions.drop_last()),
            router_id,
            sessions.last(),
        )
    }
}

/// The graph with what a report tells of the network: who reports, whom it knows, and
/// with whom it has sessions.
pub open spec fn with_report(shape: Shape, report: Json) -> Shape {
    let zid = text_field_of(report, "zid"@);
    let reporter = match (zid, text_field_of(report, "whatami"@)) {
        (Some(zid), Some(whatami)) => with_node(shape, admin_node(whatami, zid, zid)),
        _ => shape,
    };
    let routers = with_list_field(reporter, report, "routers"@, "router"@);
    let peers = with_list_field(routers, report, "peers"@, "peer"@);
    let clients = with_list_field(peers, report, "clients"@, "client"@);
    match (zid, list_field_of(report, "sessions"@)) {
        (Some(zid), Some(sessions)) => with_sessions(
            with_node(clients, admin_node("router"@, zid, zid)),
            node_id_of("router"@, zid),
            sessions,
        ),
        _ => clients,
    }
}

/// The graph with what the payloads of the admin space tell. What is no JSON tells nothing.
pub open spec fn with_reports(shape: Shape, payloads: Seq<Seq<char>>) -> Shape
    decreases payloads.len(),
{
    if payloads.len() == 0 {
        shape
    } else {
        let before = with_reports(shape, payloads.drop_last());
        match parsed_json(payloads.last()) {
            Some(report) => with_report(before, report),
            None => before,
        }
    }
}

fn add_listed(nodes: &mut OrderedMap<GraphNode>, report: &Value, field: &str, mode: &str)
    requires
        old(nodes).wf(),
    ensures
        final(nodes).wf(),
        forall|links: Seq<LinkView>|
            (Shape { nodes: final(nodes)@, links }) == #[trigger] with_list_field(
                Shape { nodes: old(nodes)@, links },
                json_of(*report),
                field@,
                mode@,
            ),
{
    let items = match list_field(report, field) {
        Some(items) => items,
        None => return,
    };
    let ghost list = items@.map_values(|item: Value| json_of(item));
    let ghost start = nodes@;
    let mut i: usize = 0;
    assert(list.take(0) =~= seq![]);
    while i < items.len()
        invariant
            i <= items@.len(),
            list == items@.map_values(|item: Value| json_of(item)),
            nodes.wf(),
            forall|links: Seq<LinkView>|
                (Shape { nodes: nodes@, links }) == #[trigger] with_listed(
                    Shape { nodes: start, links },
                    mode@,
                    list.take(i as int),
                ),
        decreases items.len() - i,
    {
        let ghost before = nodes@;
        match json_text(&items[i]) {
            Some(zid) => {
                insert_admin_node(nodes, mode, zid, zid.to_owned());
            },
            None => {},
        }
        proof {
            let now = list.take(i + 1);
            assert(now.drop_last() =~= list.take(i as int));
            assert(now.last() == json_of(items@[i as int]));
            assert forall|links: Seq<LinkView>|
                (Shape { nodes: nodes@, links }) == #[trigger] with_listed(
                    Shape { nodes: start, links },
                    mode@,
                    now,
                ) by {
                let was = with_listed(Shape { nodes: start, links }, mode@, list.take(i as int));
                assert(was == (Shape { nodes: before, links }));
                if let Json::Text(zid) = now.last() {
                    assert(with_node(was, admin_node(mode@, zid, zid)) == (Shape {
                        nodes: nodes@,
                        links,
                    }));
                }
            }
        }
        i = i + 1;
    }
    assert(list.take(i as int) =~= list);
}

/// What the links of a session are rendered as, if it has any.
pub fn session_links(session: &Value) -> (r: Option<String>)
    ensures
        opt_view(r) == session_links_of(json_of(*session)),
{
    let items = match list_field(session, "links") {
        Some(items) => items,
        None => return None,
    };
    let ghost list = items@.map_values(|item: Value| json_of(item));
    let mut rendered: Vec<String> = Vec::new();
    let mut i: usize = 0;
    assert(list.take(0) =~= seq![]);
    assert(views(rendered@) =~= seq![]);
    while i < items.len()
        invariant
            i <= items@.len(),
            list == items@.map_values(|item: Value| json_of(item)),
            views(rendered@) == rendered_links(list.take(i as int)),
        decreases items.len() - i,
    {
        let ghost before = views(rendered@);
        proof {
            assert(list.take(i + 1).drop_last() =~= list.take(i as int));
            assert(list.take(i + 1).last() == json_of(items@[i as int]));
        }
        match (string_field(&items[i], "src"), string_field(&items[i], "dst")) {
            (Some(src), Some(dst)) => {
                let mut link = src.to_owned();
                link.append(" -> ");
                link.append(dst);
                rendered.push(link);
                assert(views(rendered@) =~= before.push(src@ + " -> "@ + dst@));
            },
            _ => {},
        }
        i = i + 1;
    }
    assert(list.take(i as int) =~= list);
    if rendered.len() == 0 {
        None
    } else {
        Some(join(&rendered, ", "))
    }
}

fn add_session(
    nodes: &mut OrderedMap<GraphNode>,
    links: &mut Vec<GraphLink>,
    router_id: &String,
    session: &Value,
)
    requires
        old(nodes).wf(),
    ensures
        final(nodes).wf(),
        (Shape { nodes: final(nodes)@, links: link_views(final(links)@) }) == with_session(
            Shape { nodes: old(nodes)@, links: link_views(old(links)@) },
            router_id@,
            json_of(*session),
        ),
{
    let peer = match string_field(session, "peer") {
        Some(peer) => peer,
        None => return,
    };
    let mode = match string_field(session, "whatami") {
        Some(mode) => mode,
        None => "client",
    };
    let region = match string_field(session, "region") {
        Some(region) => region,
        None => "",
    };
    proof {
        reveal_strlit("");
    }
    let everywhere = chars_of(region).len() == 0;
    let detail = match session_links(session) {
        Some(rendered) => if everywhere {
            rendered
        } else {
            let mut detail = region.to_owned();
            detail.append("; ");
            detail.append(rendered.as_str());
            detail
        },
        None => if everywhere {
            peer.to_owned()
        } else {
            region.to_owned()
        },
    };
    assert(detail@ == session_detail(json_of(*session), peer@));
    let ghost before = Shape { nodes: nodes@, links: link_views(links@) };
    insert_admin_node(nodes, mode, peer, detail);
    let ghost between = with_node(before, admin_node(mode@, peer@, detail@));
    assert(between == (Shape { nodes: nodes@, links: link_views(links@) }));
    links.push(
        GraphLink {
            source: router_id.clone(),
            target: admin_node_id(mode, peer),
            label: if everywhere {
                "session".to_owned()
            } else {
                region.to_owned()
            },
            kind: "admin".to_owned(),
        },
    );
    assert(link_views(links@) =~= between.links.push(links@.last()@));
}

/// Add what a report of the admin space tells of the network.
pub fn add_report(
    report: &Value,
    nodes: &mut OrderedMap<GraphNode>,
    links: &mut Vec<GraphLink>,
)
    requires
        old(nodes).wf(),
    ensures
        final(nodes).wf(),
        (Shape { nodes: final(nodes)@, links: link_views(final(links)@) }) == with_report(
            Shape { nodes: old(nodes)@, links: link_views(old(links)@) },
            json_of(*report),
        ),
{
    let ghost start = Shape { nodes: nodes@, links: link_views(links@) };
    let ghost json = json_of(*report);
    match (string_field(report, "zid"), string_field(report, "whatami")) {
        (Some(zid), Some(whatami)) => {
            insert_admin_node(nodes, whatami, zid, zid.to_owned());
            assert(with_node(start, admin_node(whatami@, zid@, zid@)) == (Shape {
                nodes: nodes@,
                links: start.links,
            }));
        },
        _ => {},
    }
    let ghost reporter = Shape { nodes: nodes@, links: start.links };
    add_listed(nodes, report, "routers", "router");
    let ghost routers = with_list_field(reporter, json, "routers"@, "router"@);
    add_listed(nodes, report, "peers", "peer");
    let ghost peers = with_list_field(routers, json, "peers"@, "peer"@);
    add_listed(nodes, report, "clients", "client");
    let ghost clients = with_list_field(peers, json, "clients"@, "client"@);
    assert(clients == (Shape { nodes: nodes@, links: start.links }));
    let zid = match string_field(report, "zid") {
        Some(zid) => zid,
        None => return,
    };
    let sessions = match list_field(report, "sessions") {
        Some(sessions) => sessions,
        None => return,
    };
    let router_id = admin_node_id("router", zid);
    insert_admin_node(nodes, "router", zid, zid.to_owned());
    let ghost router = with_node(clients, admin_node("router"@, zid@, zid@));
    assert(router == (Shape { nodes: nodes@, links: start.links }));
    let ghost list = sessions@.map_values(|item: Value| json_of(item));
    let mut i: usize = 0;
    assert(list.take(0) =~= seq![]);
    while i < sessions.len()
        invariant
            i <= sessions@.len(),
            list == sessions@.map_values(|item: Value| json_of(item)),
            nodes.wf(),
            (Shape { nodes: nodes@, links: link_views(links@) }) == with_sessions(
                router,
                router_id@,
                list.take(i as int),
            ),
        decreases sessions.len() - i,
    {
        proof {
            assert(list.take(i + 1).drop_last() =~= list.take(i as int));
            assert(list.take(i + 1).last() == json_of(sessions@[i as int]));
        }
        add_session(nodes, links, &router_id, &sessions[i]);
        i = i + 1;
    }
    assert(list.take(i as int) =~= list);
}

/// Add what the payloads of the admin space tell of the network, in the order of their
/// keys.
pub fn add_admin_topology(
    entries: &OrderedMap<String>,
    nodes: &mut OrderedMap<GraphNode>,
    links: &mut Vec<GraphLink>,
)
    requires
        entries.wf(),
        old(nodes).wf(),
    ensures
        final(nodes).wf(),
        (Shape { nodes: final(nodes)@, links: link_views(final(links)@) }) == with_reports(
            Shape { nodes: old(nodes)@, links: link_views(old(links)@) },
            entries.value_list(),
        ),
{
    let ghost start = Shape { nodes: nodes@, links: link_views(links@) };
    let ghost payloads = entries.value_list();
    let mut i: usize = 0;
    assert(payloads.take(0) =~= seq![]);
    while i < entries.len()
        invariant
            entries.wf(),
            payloads == entries.value_list(),
            i <= payloads.len(),
            nodes.wf(),
            (Shape { nodes: nodes@, links: link_views(links@) }) == with_reports(
                start,
                payloads.take(i as int),
            ),
        decreases payloads.len() - i,
    {
        proof {
            assert(payloads.take(i + 1).drop_last() =~= payloads.take(i as int));
            assert(payloads.take(i + 1).last() == payloads[i as int]);
        }
        match parse_json(entries.value_at(i).as_str()) {
            Some(report) => {
                add_report(&report, nodes, links);
            },
            None => {},
        }
        i = i + 1;
    }
    assert(payloads.take(i as int) =~= payloads);
}

/// Something that a node of the network declares: a publisher, a subscriber and the like.
#[derive(Debug)]
pub struct AdminEntity {
    pub zid: String,
    pub mode: String,
    pub kind: String,
    pub expr: String,
}

/// The contents of an [`AdminEntity`].
pub struct EntityView {
    pub zid: Seq<char>,
    pub mode: Seq<char>,
    pub kind: Seq<char>,
    pub expr: Seq<char>,
}

impl View for AdminEntity {
    type V = EntityView;

    open spec fn view(&self) -> EntityView {
        EntityView { zid: self.zid@, mode: self.mode@, kind: self.kind@, expr: self.expr@ }
    }
}

/// The entity that a key of the admin space declares: `@/<zid>/<mode>/<kind>/<expr>/<kind>`.
pub open spec fn entity_of(key: Seq<char>) -> Option<EntityView> {
    let parts = pieces(key, '/');
    let expr = joined(parts.subrange(4, parts.len() - 1), "/"@);
    if parts.len() >= 6 && parts[0] == "@"@ && parts.last() == parts[3] && expr.len() > 0 {
        Some(EntityView { zid: parts[1], mode: parts[2], kind: parts[3], expr })
    } else {
        None
    }
}

/// The entities that keys of the admin space declare.
pub open spec fn entities_of(keys: Seq<Seq<char>>) -> Seq<EntityView>
    decreases keys.len(),
{
    if keys.len() == 0 {
        seq![]
    } else {
        let before = entities_of(keys.drop_last());
        match entity_of(keys.last()) {
            Some(entity) => before.push(entity),
            None => before,
        }
    }
}

/// The contents of a list of entities.
pub open spec fn entity_views(entities: Seq<AdminEntity>) -> Seq<EntityView> {
    entities.map_values(|entity: AdminEntity| entity@)
}

/// The entity that a key of the admin space declares.
pub fn parse_admin_entity(key: &str) -> (r: Option<AdminEntity>)
    ensures
        match entity_of(key@) {
            Some(entity) => r is Some && r->Some_0@ == entity,
            None => r is None,
        },
{
    let parts = split(key, '/');
    let ghost all = pieces(key@, '/');
    let count: usize = parts.len();
    if count < 6 {
        return None;
    }
    assert(all.len() == count);
    assert(all[0] == parts@[0]@);
    assert(all[1] == parts@[1]@);
    assert(all[2] == parts@[2]@);
    assert(all[3] == parts@[3]@);
    assert(all.last() == parts@[count - 1]@);
    if !same(parts[0].as_str(), "@") || !same(parts[count - 1].as_str(), parts[3].as_str()) {
        return None;
    }
    let mut middle: Vec<String> = Vec::new();
    let mut i: usize = 4;
    while i < count - 1
        invariant
            4 <= i <= count - 1,
            count == parts@.len(),
            all.len() == count,
            all == views(parts@),
            views(middle@) =~= all.subrange(4, i as int),
        decreases count - i,
    {
        let ghost before = views(middle@);
        middle.push(parts[i].clone());
        assert(views(middle@) =~= before.push(all[i as int]));
        i = i + 1;
    }
    let expr = join(&middle, "/");
    if chars_of(expr.as_str()).len() == 0 {
        return None;
    }
    Some(
        AdminEntity {
            zid: parts[1].clone(),
            mode: parts[2].clone(),
            kind: parts[3].clone(),
            expr,
        },
    )
}

/// The entities that the keys of the admin space declare, in the order of the keys.
pub fn parse_admin_entities(entries: &OrderedMap<String>) -> (r: Vec<AdminEntity>)
    requires
        entries.wf(),
    ensures
        entity_views(r@) == entities_of(entries.key_list()),
{
    let ghost keys = entries.key_list();
    let mut r: Vec<AdminEntity> = Vec::new();
    let mut i: usize = 0;
    assert(keys.take(0) =~= seq![]);
    assert(entity_views(r@) =~= seq![]);
    while i < entries.len()
        invariant
            entries.wf(),
            keys == entries.key_list(),
            i <= keys.len(),
            entity_views(r@) == entities_of(keys.take(i as int)),
        decreases keys.len() - i,
    {
        let ghost before = entity_views(r@);
        proof {
            assert(keys.take(i + 1).drop_last() =~= keys.take(i as int));
            assert(keys.take(i + 1).last() == keys[i as int]);
        }
        match parse_admin_entity(entries.key_at(i).as_str()) {
            Some(entity) => {
                let ghost view = entity@;
                r.push(entity);
                assert(entity_views(r@) =~= before.push(view));
            },
            None => {},
        }
        i = i + 1;
    }
    assert(keys.take(i as int) =~= keys);
    r
}

/// The key under which the admin space declares something of an expression.
pub open spec fn declaring_key(entity: EntityView) -> Seq<char> {
    "@/"@ + entity.zid + "/"@ + entity.mode + "/"@ + entity.kind + "/"@ + entity.expr + "/"@
        + entity.kind
}

/// Whether the parts of an entity, but for its expression, have no slash, and it has an
/// expression.
pub open spec fn declarable(entity: EntityView) -> bool {
    &&& !entity.zid.contains('/')
    &&& !entity.mode.contains('/')
    &&& !entity.kind.contains('/')
    &&& entity.expr.len() > 0
}

/// What a key declares is read from it as it was written there, whatever the expression is.
pub proof fn declared_entity_is_read(entity: EntityView)
    requires
        declarable(entity),
    ensures
        entity_of(declaring_key(entity)) == Some(entity),
{
    let slash = seq!['/'];
    let at = "@"@;
    reveal_strlit("@/");
    reveal_strlit("@");
    reveal_strlit("/");
    assert("/"@ =~= slash);
    assert("@/"@ =~= at + slash);
    assert(!at.contains('/'));
    let key = declaring_key(entity);
    let e = entity.expr + slash + entity.kind;
    let d = entity.kind + slash + e;
    let c = entity.mode + slash + d;
    let b = entity.zid + slash + c;
    assert(key =~= at + slash + b);
    pieces_of_texts_that_meet(at, b, '/');
    pieces_of_texts_that_meet(entity.zid, c, '/');
    pieces_of_texts_that_meet(entity.mode, d, '/');
    pieces_of_texts_that_meet(entity.kind, e, '/');
    pieces_of_texts_that_meet(entity.expr, entity.kind, '/');
    pieces_make_up_the_text(entity.expr, '/');
    let middle = pieces(entity.expr, '/');
    let parts = pieces(key, '/');
    assert(parts =~= seq![at, entity.zid, entity.mode, entity.kind] + middle + seq![entity.kind]);
    assert(parts.subrange(4, parts.len() - 1) =~= middle);
    assert(parts.last() == entity.kind);
}

/// Only a key that declares an entity is read as one, and it is the key of that entity.
pub proof fn only_declaring_keys_are_read(key: Seq<char>)
    ensures
        entity_of(key) matches Some(entity) ==> declarable(entity) && key == declaring_key(entity),
{
    if let Some(entity) = entity_of(key) {
        let slash = seq!['/'];
        reveal_strlit("@/");
        reveal_strlit("@");
        reveal_strlit("/");
        assert("/"@ =~= slash);
        pieces_make_up_the_text(key, '/');
        let parts = pieces(key, '/');
        let front = seq![parts[0], parts[1], parts[2], parts[3]];
        let middle = parts.subrange(4, parts.len() - 1);
        let back = seq![parts.last()];
        assert(parts =~= front + middle + back);
        joined_runs_meet_at_a_separator(front + middle, back, slash);
        joined_runs_meet_at_a_separator(front, middle, slash);
        joined_runs_meet_at_a_separator(back, middle, slash);
        let one = seq![parts[0]];
        let two = seq![parts[0], parts[1]];
        let three = seq![parts[0], parts[1], parts[2]];
        assert(two =~= one + seq![parts[1]]);
        assert(three =~= two + seq![parts[2]]);
        assert(front =~= three + seq![parts[3]]);
        joined_runs_meet_at_a_separator(one, seq![parts[1]], slash);
        joined_runs_meet_at_a_separator(seq![parts[1]], one, slash);
        joined_runs_meet_at_a_separator(two, seq![parts[2]], slash);
        joined_runs_meet_at_a_separator(seq![parts[2]], one, slash);
        joined_runs_meet_at_a_separator(three, seq![parts[3]], slash);
        joined_runs_meet_at_a_separator(seq![parts[3]], one, slash);
        assert("@/"@ =~= "@"@ + slash);
        assert(key =~= declaring_key(entity));
    }
}

/// The entities of keys are read from them one by one, in the order of the keys.
pub proof fn entities_are_read_key_by_key(keys: Seq<Seq<char>>, more: Seq<Seq<char>>)
    ensures
        entities_of(keys + more) == entities_of(keys) + entities_of(more),
        keys.len() == 0 ==> entities_of(keys).len() == 0,
        keys.len() == 1 ==> entities_of(keys) == match entity_of(keys[0]) {
            Some(entity) => seq![entity],
            None => seq![],
        },
    decreases more.len(),
{
    if keys.len() == 1 {
        assert(keys.drop_last() =~= seq![]);
        assert(entities_of(keys.drop_last()) =~= seq![]);
        assert(entities_of(keys) =~= match entity_of(keys[0]) {
            Some(entity) => seq![entity],
            None => seq![],
        });
    }
    if more.len() == 0 {
        assert(keys + more =~= keys);
        assert(entities_of(keys) + entities_of(more) =~= entities_of(keys));
    } else {
        let all = keys + more;
        assert(all.drop_last() =~= keys + more.drop_last());
        assert(all.last() == more.last());
        entities_are_read_key_by_key(keys, more.drop_last());
        assert(entities_of(all) =~= entities_of(keys) + entities_of(more));
    }
}

proof fn lemma_char_size(c: char)
    ensures
        encode_scalar(c as u32).len() == char_size(c),
{
}

/// The size of a text is the number of its bytes in UTF-8.
pub proof fn size_is_counted_in_bytes(text: Seq<char>)
    ensures
        text_size(text) == encode_utf8(text).len(),
    decreases text.len(),
{
    if text.len() > 0 {
        size_is_counted_in_bytes(text.drop_first());
        lemma_char_size(text[0]);
    }
}

/// A text that is shortened keeps the longest start that fits in the limit, with dots
/// behind it; a text that fits is kept whole.
pub proof fn shortened_text_keeps_what_fits(text: Seq<char>, limit: nat)
    ensures
        encode_utf8(text).len() <= limit ==> shortened(text, limit) == text,
        encode_utf8(text).len() > limit ==> exists|kept: int| #![trigger text.take(kept)]
            0 <= kept < text.len() && shortened(text, limit) == text.take(kept) + "..."@
                && encode_utf8(text.take(kept)).len() <= limit && encode_utf8(
                text.take(kept + 1),
            ).len() > limit,
{
    size_is_counted_in_bytes(text);
    if text_size(text) > limit {
        let kept = start_within(text, limit).len() as int;
        lemma_start_within(text, limit);
        size_is_counted_in_bytes(text.take(kept));
        size_is_counted_in_bytes(text.take(kept + 1));
    }
}

proof fn lemma_start_within(text: Seq<char>, limit: nat)
    requires
        text_size(text) > limit,
    ensures
        start_within(text, limit).len() < text.len(),
        start_within(text, limit) == text.take(start_within(text, limit).len() as int),
        text_size(text.take(start_within(text, limit).len() as int)) <= limit,
        text_size(text.take(start_within(text, limit).len() as int + 1)) > limit,
    decreases text.len(),
{
    let kept = start_within(text, limit).len() as int;
    let first = char_size(text[0]);
    if first > limit {
        assert(text.take(0) =~= seq![]);
        assert(text.take(1).drop_first() =~= seq![]);
        assert(text_size(text.take(1).drop_first()) == 0);
    } else {
        let rest = text.drop_first();
        let left = (limit - first) as nat;
        lemma_start_within(rest, left);
        assert(text.take(kept).drop_first() =~= rest.take(kept - 1));
        assert(text.take(kept + 1).drop_first() =~= rest.take(kept));
        assert(start_within(text, limit) =~= text.take(kept));
    }
}

/// A node of the network is of the kind of its mode if that is a router, a peer or a
/// client, and of another kind otherwise. Its id and label name the kind and the node, it
/// carries no traffic of its own, and it is not stale.
pub proof fn network_node_is_named_by_kind(mode: Seq<char>, zid: Seq<char>, detail: Seq<char>)
    ensures
        ({
            let kind = if mode == "router"@ || mode == "peer"@ || mode == "client"@ {
                mode
            } else {
                "other"@
            };
            let node = admin_node(mode, zid, detail);
            &&& kind_of(mode) == kind
            &&& node_id_of(mode, zid) == kind + ":"@ + zid
            &&& node.id == kind + ":"@ + zid
            &&& node.kind == kind
            &&& node.detail == detail
            &&& node.label == kind + " "@ + shortened(zid, 8)
            &&& node.messages == 0 && node.bytes == 0 && node.recent == 0
            &&& !node.stale
        }),
{
}

/// A node is added to a graph unless there is one with its id, which is kept as it is; no
/// other node is touched, and no link.
pub proof fn node_is_added_once(shape: Shape, node: NodeView, other: Seq<char>)
    ensures
        with_node(shape, node).links == shape.links,
        with_node(shape, node).nodes.dom().contains(node.id),
        with_node(shape, node).nodes[node.id] == if shape.nodes.dom().contains(node.id) {
            shape.nodes[node.id]
        } else {
            node
        },
        other != node.id ==> (with_node(shape, node).nodes.dom().contains(other)
            <==> shape.nodes.dom().contains(other)),
        other != node.id && shape.nodes.dom().contains(other) ==> with_node(
            shape,
            node,
        ).nodes[other] == shape.nodes[other],
{
}

/// The links of a session's transport are rendered one by one, in their order: each with a
/// source and a destination, and no other.
pub proof fn links_are_rendered_one_by_one(items: Seq<Json>, more: Seq<Json>)
    ensures
        rendered_links(items + more) == rendered_links(items) + rendered_links(more),
        items.len() == 0 ==> rendered_links(items).len() == 0,
        items.len() == 1 ==> rendered_links(items) == match (
            text_field_of(items[0], "src"@),
            text_field_of(items[0], "dst"@),
        ) {
            (Some(src), Some(dst)) => seq![src + " -> "@ + dst],
            _ => seq![],
        },
    decreases more.len(),
{
    if items.len() == 1 {
        assert(items.drop_last() =~= seq![]);
        assert(rendered_links(items.drop_last()) =~= seq![]);
        assert(rendered_links(items) =~= match (
            text_field_of(items[0], "src"@),
            text_field_of(items[0], "dst"@),
        ) {
            (Some(src), Some(dst)) => seq![src + " -> "@ + dst],
            _ => seq![],
        });
    }
    if more.len() == 0 {
        assert(items + more =~= items);
        assert(rendered_links(items) + rendered_links(more) =~= rendered_links(items));
    } else {
        let all = items + more;
        assert(all.drop_last() =~= items + more.drop_last());
        assert(all.last() == more.last());
        links_are_rendered_one_by_one(items, more.drop_last());
        assert(rendered_links(all) =~= rendered_links(items) + rendered_links(more));
    }
}

/// A session of a router gives one link, from the router to the other end, which is a
/// client unless it says what it is, and a node for that end. The link is labelled with the
/// session's region, if it has one. A session without another end gives nothing.
pub proof fn session_links_the_router_to_its_peer(
    shape: Shape,
    router_id: Seq<char>,
    session: Json,
)
    ensures
        text_field_of(session, "peer"@) is None ==> with_session(shape, router_id, session)
            == shape,
        text_field_of(session, "peer"@) matches Some(peer) ==> {
            let after = with_session(shape, router_id, session);
            let mode = match text_field_of(session, "whatami"@) {
                Some(mode) => mode,
                None => "client"@,
            };
            let region = match text_field_of(session, "region"@) {
                Some(region) => region,
                None => seq![],
            };
            &&& after.links.len() == shape.links.len() + 1
            &&& after.links.drop_last() == shape.links
            &&& after.links.last().source == router_id
            &&& after.links.last().target == node_id_of(mode, peer)
            &&& after.links.last().kind == "admin"@
            &&& after.links.last().label == if region.len() > 0 {
                region
            } else {
                "session"@
            }
            &&& after.nodes.dom().contains(node_id_of(mode, peer))
            &&& !shape.nodes.dom().contains(node_id_of(mode, peer)) ==> after.nodes[node_id_of(
                mode,
                peer,
            )] == admin_node(mode, peer, session_detail(session, peer))
        },
{
    reveal_strlit("");
    if text_field_of(session, "peer"@) is Some {
        assert(with_session(shape, router_id, session).links.drop_last() =~= shape.links);
        assert(text_field_of(session, "region"@) is None ==> ""@ =~= seq![]);
    }
}

/// What is told of the other end of a session: the region and the links of the session, as
/// far as there are any, the region first; and the other end's id if there is neither.
pub proof fn session_tells_region_and_links(session: Json, peer: Seq<char>)
    ensures
        ({
            let region = match text_field_of(session, "region"@) {
                Some(region) => region,
                None => seq![],
            };
            let links = match list_field_of(session, "links"@) {
                Some(items) => rendered_links(items),
                None => seq![],
            };
            &&& region.len() > 0 && links.len() > 0 ==> session_detail(session, peer) == region
                + "; "@ + joined(links, ", "@)
            &&& region.len() > 0 && links.len() == 0 ==> session_detail(session, peer) == region
            &&& region.len() == 0 && links.len() > 0 ==> session_detail(session, peer) == joined(
                links,
                ", "@,
            )
            &&& region.len() == 0 && links.len() == 0 ==> session_detail(session, peer) == peer
        }),
{
    reveal_strlit("");
}

} // verus!
