//! Node connection and disconnection bookkeeping.
//!
//! Entities, audio-graph nodes and node labels are identified by plain
//! integers here; the surrounding application maps them to its own
//! handles.
use crate::send::MAIN_BUS;
use std::collections::HashMap;
use vstd::prelude::*;

verus! {

broadcast use vstd::std_specs::hash::group_hash_axioms;

/// An entity that may carry an audio node.
pub type EntityId = u64;

/// A node of the audio graph.
pub type NodeId = u64;

/// An interned node label, such as the main bus.
pub type LabelId = u64;

/// A target for node connections.
#[derive(Debug, Clone, Copy, PartialEq, Eq, Structural)]
pub enum EdgeTarget {
    /// A global label such as the main bus.
    Label(LabelId),
    /// An audio entity.
    Entity(EntityId),
    /// An existing node from the audio graph.
    Node(NodeId),
}

/// The stereo port mapping used when none is given: `[(0, 0), (1, 1)]`.
pub open spec fn default_ports() -> Seq<(u32, u32)> {
    seq![(0u32, 0u32), (1u32, 1u32)]
}

/// The stereo port mapping `[(0, 0), (1, 1)]`.
pub fn default_connection() -> (ports: Vec<(u32, u32)>)
    ensures
        ports@ == default_ports(),
{
    let mut ports = Vec::new();
    ports.push((0, 0));
    ports.push((1, 1));
    proof {
        assert(ports@ =~= default_ports());
    }
    ports
}

/// A pending edge between two nodes.
#[derive(Debug)]
pub struct PendingEdge {
    /// The edge target.
    ///
    /// The edge runs from the pending entity's output to the target's input.
    pub target: EdgeTarget,
    /// An optional port mapping: source output first, sink input second.
    ///
    /// Without one, `[(0, 0), (1, 1)]` is used.
    pub ports: Option<Vec<(u32, u32)>>,
}

/// The port mapping a pending edge stands for.
pub open spec fn ports_of(edge: PendingEdge) -> Seq<(u32, u32)> {
    match edge.ports {
        Some(p) => p@,
        None => default_ports(),
    }
}

impl PendingEdge {
    /// Construct a new [`PendingEdge`].
    pub fn new(target: EdgeTarget, ports: Option<Vec<(u32, u32)>>) -> (e: Self)
        ensures
            e.target == target,
            e.ports == ports,
    {
        PendingEdge { target, ports }
    }
}

/// How a pending edge's target resolves against the registered labels
/// and the entities that carry audio nodes.
#[derive(Debug, Clone, Copy, PartialEq, Eq, Structural)]
pub enum Resolution {
    /// The label has no node yet; the edge waits for it.
    Wait,
    /// The edge reaches this graph node.
    Node(NodeId),
    /// The entity carries no audio node; the edge is dropped.
    MissingEntity(EntityId),
}

/// The node an entity carries, if any.
pub open spec fn entity_resolution(entity: EntityId, nodes: Map<EntityId, NodeId>) -> Resolution {
    if nodes.contains_key(entity) {
        Resolution::Node(nodes[entity])
    } else {
        Resolution::MissingEntity(entity)
    }
}

/// Resolve a target: a node is taken as it is, an entity by the node it
/// carries, a label by the entity registered under it.
pub open spec fn resolution(
    target: EdgeTarget,
    labels: Map<LabelId, EntityId>,
    nodes: Map<EntityId, NodeId>,
) -> Resolution {
    match target {
        EdgeTarget::Node(n) => Resolution::Node(n),
        EdgeTarget::Entity(e) => entity_resolution(e, nodes),
        EdgeTarget::Label(l) => if labels.contains_key(l) {
            entity_resolution(labels[l], nodes)
        } else {
            Resolution::Wait
        },
    }
}

/// What the graph is asked to do for one pending edge.
#[derive(Debug)]
pub enum EdgeRequest {
    /// Connect (or disconnect) the source node and `dst` on these ports.
    Apply { dst: NodeId, ports: Vec<(u32, u32)> },
    /// The target entity carries no audio node; nothing can be done.
    MissingEntity(EntityId),
}

/// The mathematical content of an [`EdgeRequest`].
pub enum RequestView {
    Apply(NodeId, Seq<(u32, u32)>),
    MissingEntity(EntityId),
}

impl View for EdgeRequest {
    type V = RequestView;

    open spec fn view(&self) -> RequestView {
        match self {
            EdgeRequest::Apply { dst, ports } => RequestView::Apply(*dst, ports@),
            EdgeRequest::MissingEntity(e) => RequestView::MissingEntity(*e),
        }
    }
}

/// The mathematical content of a list of requests.
pub open spec fn request_views(requests: Seq<EdgeRequest>) -> Seq<RequestView> {
    Seq::new(requests.len(), |q: int| requests[q]@)
}

/// The edges that keep waiting, in order.
pub open spec fn retained_edges(
    s: Seq<PendingEdge>,
    labels: Map<LabelId, EntityId>,
    nodes: Map<EntityId, NodeId>,
) -> Seq<PendingEdge>
    decreases s.len(),
{
    if s.len() == 0 {
        Seq::empty()
    } else {
        let rest = retained_edges(s.drop_last(), labels, nodes);
        if resolution(s.last().target, labels, nodes) == Resolution::Wait {
            rest.push(s.last())
        } else {
            rest
        }
    }
}

/// The requests produced for the edges that do not wait, in order.
pub open spec fn edge_requests(
    s: Seq<PendingEdge>,
    labels: Map<LabelId, EntityId>,
    nodes: Map<EntityId, NodeId>,
) -> Seq<RequestView>
    decreases s.len(),
{
    if s.len() == 0 {
        Seq::empty()
    } else {
        let rest = edge_requests(s.drop_last(), labels, nodes);
        match resolution(s.last().target, labels, nodes) {
            Resolution::Wait => rest,
            Resolution::Node(n) => rest.push(RequestView::Apply(n, ports_of(s.last()))),
            Resolution::MissingEntity(e) => rest.push(RequestView::MissingEntity(e)),
        }
    }
}

/// A map that associates node labels with the entities that carry them.
#[derive(Debug)]
pub struct NodeMap(HashMap<LabelId, EntityId>);

impl View for NodeMap {
    type V = Map<LabelId, EntityId>;

    closed spec fn view(&self) -> Map<LabelId, EntityId> {
        self.0@
    }
}

impl NodeMap {
    /// An empty map.
    pub fn new() -> (m: Self)
        ensures
            m@ == Map::<LabelId, EntityId>::empty(),
    {
        NodeMap(HashMap::new())
    }

    /// The entity registered under `label`.
    pub fn get(&self, label: LabelId) -> (e: Option<EntityId>)
        ensures
            e == (if self@.contains_key(label) {
                Some(self@[label])
            } else {
                None
            }),
    {
        match self.0.get(&label) {
            Some(e) => Some(*e),
            None => None,
        }
    }

    /// Register `entity` under `label`, replacing any earlier entity.
    pub fn insert(&mut self, label: LabelId, entity: EntityId)
        ensures
            final(self)@ == old(self)@.insert(label, entity),
    {
        self.0.insert(label, entity);
    }

    /// Forget every label in `labels`.
    pub fn remove_labels(&mut self, labels: &[LabelId])
        ensures
            final(self)@ == old(self)@.remove_keys(labels@.to_set()),
    {
        let mut k: usize = 0;
        while k < labels.len()
            invariant
                k <= labels@.len(),
                forall|l: LabelId|
                    #![trigger self@.contains_key(l)]
                    self@.contains_key(l) <==> (old(self)@.contains_key(l)
                        && !labels@.subrange(0, k as int).contains(l)),
                forall|l: LabelId| self@.contains_key(l) ==> #[trigger] self@[l] == old(self)@[l],
            decreases labels@.len() - k,
        {
            let ghost before = self@;
            let key = labels[k];
            self.0.remove(&key);
            proof {
                assert(self@ == before.remove(key));
                lemma_prefix_extends(labels@, k as int);
            }
            k = k + 1;
        }
        proof {
            assert(labels@.subrange(0, labels@.len() as int) =~= labels@);
            assert(self@ =~= old(self)@.remove_keys(labels@.to_set()));
        }
    }
}

/// Extending a prefix of `s` by one element adds exactly that element
/// to what the prefix contains.
pub proof fn lemma_prefix_extends(s: Seq<LabelId>, k: int)
    requires
        0 <= k < s.len(),
    ensures
        s.subrange(0, k + 1) == s.subrange(0, k).push(s[k]),
        forall|l: LabelId|
            #[trigger] s.subrange(0, k + 1).contains(l) <==> (s.subrange(0, k).contains(l) || l == s[k]),
{
    let prev = s.subrange(0, k);
    let next = s.subrange(0, k + 1);
    assert(next =~= prev.push(s[k]));
    assert forall|l: LabelId| next.contains(l) <==> (prev.contains(l) || l == s[k]) by {
        if next.contains(l) && l != s[k] {
            let i = choose|i: int| 0 <= i < next.len() && next[i] == l;
            assert(prev[i] == l);
        }
        if prev.contains(l) {
            let i = choose|i: int| 0 <= i < prev.len() && prev[i] == l;
            assert(next[i] == l);
        }
        if l == s[k] {
            assert(next[k] == l);
        }
    }
}

impl Default for NodeMap {
    fn default() -> (m: Self)
        ensures
            m@ == Map::<LabelId, EntityId>::empty(),
    {
        NodeMap::new()
    }
}

/// Resolve one target against the label map and the node lookup.
pub fn resolve(target: EdgeTarget, labels: &NodeMap, nodes: &HashMap<EntityId, NodeId>) -> (r:
    Resolution)
    ensures
        r == resolution(target, labels@, nodes@),
{
    let entity = match target {
        EdgeTarget::Node(n) => {
            return Resolution::Node(n);
        },
        EdgeTarget::Entity(e) => e,
        EdgeTarget::Label(l) => match labels.get(l) {
            Some(e) => e,
            None => {
                return Resolution::Wait;
            },
        },
    };
    match nodes.get(&entity) {
        Some(n) => Resolution::Node(*n),
        None => Resolution::MissingEntity(entity),
    }
}

/// Take the edges out of `pending` and sort each into the waiting list
/// or the requests, keeping the order of both.
fn process_edges(
    pending: &mut Vec<PendingEdge>,
    labels: &NodeMap,
    nodes: &HashMap<EntityId, NodeId>,
) -> (requests: Vec<EdgeRequest>)
    ensures
        final(pending)@ == retained_edges(old(pending)@, labels@, nodes@),
        requests@.len() == edge_requests(old(pending)@, labels@, nodes@).len(),
        forall|i: int|
            0 <= i < requests@.len() ==> #[trigger] requests@[i]@ == edge_requests(
                old(pending)@,
                labels@,
                nodes@,
            )[i],
{
    // Move the edges onto a stack, reversed, so they can be handed out
    // front to back.
    let ghost original = pending@;
    let mut stack: Vec<PendingEdge> = Vec::new();
    while pending.len() > 0
        invariant
            pending@ + stack@.reverse() == original,
        decreases pending@.len(),
    {
        let e = pending.pop().unwrap();
        proof {
            assert(pending@.push(e) + stack@.reverse() =~= pending@ + stack@.push(e).reverse());
        }
        stack.push(e);
    }
    let mut requests: Vec<EdgeRequest> = Vec::new();
    proof {
        assert(stack@.reverse() =~= original);
        assert(original.subrange(0, 0) =~= Seq::<PendingEdge>::empty());
    }
    while stack.len() > 0
        invariant
            stack@.len() <= original.len(),
            original.subrange(0, original.len() - stack@.len()) + stack@.reverse() == original,
            pending@ == retained_edges(
                original.subrange(0, original.len() - stack@.len()),
                labels@,
                nodes@,
            ),
            requests@.len() == edge_requests(
                original.subrange(0, original.len() - stack@.len()),
                labels@,
                nodes@,
            ).len(),
            forall|i: int|
                0 <= i < requests@.len() ==> #[trigger] requests@[i]@ == edge_requests(
                    original.subrange(0, original.len() - stack@.len()),
                    labels@,
                    nodes@,
                )[i],
        decreases stack@.len(),
    {
        let ghost done = original.subrange(0, original.len() - stack@.len());
        let edge = stack.pop().unwrap();
        let ghost next = original.subrange(0, original.len() - stack@.len());
        proof {
            assert(done.push(edge) + stack@.reverse() =~= done + stack@.push(edge).reverse());
            assert(next =~= done.push(edge)) by {
                assert(next.len() == done.len() + 1);
                assert forall|i: int| 0 <= i < next.len() implies next[i] == done.push(edge)[i] by {
                    assert(original[i] == (done.push(edge) + stack@.reverse())[i]);
                }
            }
            assert(next.drop_last() =~= done);
        }
        let target = edge.target;
        match resolve(target, labels, nodes) {
            Resolution::Wait => {
                pending.push(edge);
            },
            Resolution::Node(n) => {
                let ports = match edge.ports {
                    Some(p) => p,
                    None => default_connection(),
                };
                requests.push(EdgeRequest::Apply { dst: n, ports });
            },
            Resolution::MissingEntity(e) => {
                requests.push(EdgeRequest::MissingEntity(e));
            },
        }
    }
    proof {
        assert(original.subrange(0, original.len() as int) =~= original);
    }
    requests
}

/// The set of all pending connections for an entity.
#[derive(Debug)]
pub struct PendingConnections(Vec<PendingEdge>);

impl View for PendingConnections {
    type V = Seq<PendingEdge>;

    closed spec fn view(&self) -> Seq<PendingEdge> {
        self.0@
    }
}

impl PendingConnections {
    /// No pending connections.
    pub fn new() -> (p: Self)
        ensures
            p@ == Seq::<PendingEdge>::empty(),
    {
        PendingConnections(Vec::new())
    }

    /// Push a new pending connection.
    pub fn push(&mut self, connection: PendingEdge)
        ensures
            final(self)@ == old(self)@.push(connection),
    {
        self.0.push(connection)
    }

    /// Whether nothing is pending.
    pub fn is_empty(&self) -> (b: bool)
        ensures
            b <==> self@.len() == 0,
    {
        self.0.is_empty()
    }

    /// Resolve the pending connections.
    ///
    /// Connections to a label that no node carries yet keep waiting;
    /// every other connection yields one request, in order.
    pub fn process(&mut self, labels: &NodeMap, nodes: &HashMap<EntityId, NodeId>) -> (requests: Vec<
        EdgeRequest,
    >)
        ensures
            final(self)@ == retained_edges(old(self)@, labels@, nodes@),
            requests@.len() == edge_requests(old(self)@, labels@, nodes@).len(),
            forall|i: int|
                0 <= i < requests@.len() ==> #[trigger] requests@[i]@ == edge_requests(
                    old(self)@,
                    labels@,
                    nodes@,
                )[i],
            edges_resolved(old(self)@, request_views(requests@), final(self)@, labels@, nodes@),
            requests@.len() + final(self)@.len() == old(self)@.len(),
    {
        let requests = process_edges(&mut self.0, labels, nodes);
        proof {
            lemma_requests_follow_edges(old(self)@, labels@, nodes@);
            lemma_every_edge_accounted(old(self)@, labels@, nodes@);
            assert(request_views(requests@) =~= edge_requests(old(self)@, labels@, nodes@));
        }
        requests
    }
}

impl Default for PendingConnections {
    fn default() -> (p: Self)
        ensures
            p@ == Seq::<PendingEdge>::empty(),
    {
        PendingConnections::new()
    }
}

/// The set of all pending disconnections for an entity.
#[derive(Debug)]
pub struct PendingDisconnections(Vec<PendingEdge>);

impl View for PendingDisconnections {
    type V = Seq<PendingEdge>;

    closed spec fn view(&self) -> Seq<PendingEdge> {
        self.0@
    }
}

impl PendingDisconnections {
    /// No pending disconnections.
    pub fn new() -> (p: Self)
        ensures
            p@ == Seq::<PendingEdge>::empty(),
    {
        PendingDisconnections(Vec::new())
    }

    /// Push a new pending disconnection.
    pub fn push(&mut self, disconnection: PendingEdge)
        ensures
            final(self)@ == old(self)@.push(disconnection),
    {
        self.0.push(disconnection)
    }

    /// Whether nothing is pending.
    pub fn is_empty(&self) -> (b: bool)
        ensures
            b <==> self@.len() == 0,
    {
        self.0.is_empty()
    }

    /// Resolve the pending disconnections, exactly as connections are
    /// resolved.
    pub fn process(&mut self, labels: &NodeMap, nodes: &HashMap<EntityId, NodeId>) -> (requests: Vec<
        EdgeRequest,
    >)
        ensures
            final(self)@ == retained_edges(old(self)@, labels@, nodes@),
            requests@.len() == edge_requests(old(self)@, labels@, nodes@).len(),
            forall|i: int|
                0 <= i < requests@.len() ==> #[trigger] requests@[i]@ == edge_requests(
                    old(self)@,
                    labels@,
                    nodes@,
                )[i],
            edges_resolved(old(self)@, request_views(requests@), final(self)@, labels@, nodes@),
            requests@.len() + final(self)@.len() == old(self)@.len(),
    {
        let requests = process_edges(&mut self.0, labels, nodes);
        proof {
            lemma_requests_follow_edges(old(self)@, labels@, nodes@);
            lemma_every_edge_accounted(old(self)@, labels@, nodes@);
            assert(request_views(requests@) =~= edge_requests(old(self)@, labels@, nodes@));
        }
        requests
    }
}

impl Default for PendingDisconnections {
    fn default() -> (p: Self)
        ensures
            p@ == Seq::<PendingEdge>::empty(),
    {
        PendingDisconnections::new()
    }
}

/// The ports a request made for `edge` carries: the edge's own port
/// list, or the stereo mapping `[(0, 0), (1, 1)]` when it has none.
pub open spec fn own_ports(edge: PendingEdge) -> Seq<(u32, u32)> {
    match edge.ports {
        Some(p) => p@,
        None => seq![(0u32, 0u32), (1u32, 1u32)],
    }
}

/// What a request made for `edge` must be: an application to the node
/// the target reaches (a node directly, an entity through the node it
/// carries, a label through the entity registered under it) on the
/// edge's own ports, or a report of the entity that carries no node.
pub open spec fn request_answers(
    edge: PendingEdge,
    r: RequestView,
    labels: Map<LabelId, EntityId>,
    nodes: Map<EntityId, NodeId>,
) -> bool {
    match r {
        RequestView::Apply(n, p) => p == own_ports(edge) && match edge.target {
            EdgeTarget::Node(m) => m == n,
            EdgeTarget::Entity(e) => nodes.contains_key(e) && nodes[e] == n,
            EdgeTarget::Label(l) => labels.contains_key(l) && nodes.contains_key(labels[l])
                && nodes[labels[l]] == n,
        },
        RequestView::MissingEntity(e) => match edge.target {
            EdgeTarget::Node(_) => false,
            EdgeTarget::Entity(x) => x == e && !nodes.contains_key(e),
            EdgeTarget::Label(l) => labels.contains_key(l) && labels[l] == e && !nodes.contains_key(e),
        },
    }
}

/// How a list of pending edges was processed into `reqs` and the
/// edges `kept` waiting: an edge to a node asks for that node, an edge
/// to an entity for the node the entity carries, and an edge to a label
/// for the node of the entity registered under it, always on the edge's
/// own ports (the stereo mapping only when it has none); an entity
/// without a node is reported; an edge to an unregistered label keeps
/// waiting. Every request answers some pending edge, and every waiting
/// edge is one whose label is unregistered.
pub open spec fn edges_resolved(
    s: Seq<PendingEdge>,
    reqs: Seq<RequestView>,
    kept: Seq<PendingEdge>,
    labels: Map<LabelId, EntityId>,
    nodes: Map<EntityId, NodeId>,
) -> bool {
    &&& forall|i: int|
            0 <= i < s.len() ==> match (#[trigger] s[i]).target {
                EdgeTarget::Node(n) => reqs.contains(
                    RequestView::Apply(n, own_ports(s[i])),
                ),
                EdgeTarget::Entity(e) => reqs.contains(
                    if nodes.contains_key(e) {
                        RequestView::Apply(nodes[e], own_ports(s[i]))
                    } else {
                        RequestView::MissingEntity(e)
                    },
                ),
                EdgeTarget::Label(l) => if !labels.contains_key(l) {
                    kept.contains(s[i])
                } else if nodes.contains_key(labels[l]) {
                    reqs.contains(
                        RequestView::Apply(nodes[labels[l]], own_ports(s[i])),
                    )
                } else {
                    reqs.contains(RequestView::MissingEntity(labels[l]))
                },
            }
    &&& forall|p: int|
            #![trigger reqs[p]]
            0 <= p < reqs.len() ==> exists|i: int|
                0 <= i < s.len() && request_answers(
                    #[trigger] s[i],
                    reqs[p],
                    labels,
                    nodes,
                )
    &&& forall|p: int|
            #![trigger kept[p]]
            0 <= p < kept.len() ==> exists|i: int|
                0 <= i < s.len() && #[trigger] s[i] == kept[p]
                    && (s[i].target matches EdgeTarget::Label(l) && !labels.contains_key(l))
}

/// Processing pending edges resolves each of them as [`edges_resolved`]
/// describes.
pub proof fn lemma_requests_follow_edges(
    s: Seq<PendingEdge>,
    labels: Map<LabelId, EntityId>,
    nodes: Map<EntityId, NodeId>,
)
    ensures
        edges_resolved(s, edge_requests(s, labels, nodes), retained_edges(s, labels, nodes), labels, nodes),
    decreases s.len(),
{
    if s.len() > 0 {
        let t = s.drop_last();
        lemma_requests_follow_edges(t, labels, nodes);
        let reqs = edge_requests(s, labels, nodes);
        let rest = edge_requests(t, labels, nodes);
        let kept = retained_edges(s, labels, nodes);
        let rest_kept = retained_edges(t, labels, nodes);
        let last = s.len() - 1;
        let edge = s[last];
        assert(s.last() == edge);
        assert(ports_of(edge) == own_ports(edge));
        assert forall|x: RequestView| rest.contains(x) implies reqs.contains(x) by {
            let p = choose|p: int| 0 <= p < rest.len() && rest[p] == x;
            assert(reqs[p] == x);
        }
        assert forall|x: PendingEdge| rest_kept.contains(x) implies kept.contains(x) by {
            let p = choose|p: int| 0 <= p < rest_kept.len() && rest_kept[p] == x;
            assert(kept[p] == x);
        }
        assert forall|i: int| 0 <= i < last implies #[trigger] s[i] == t[i] by {}
        assert forall|i: int| 0 <= i < s.len() implies match (#[trigger] s[i]).target {
            EdgeTarget::Node(n) => reqs.contains(RequestView::Apply(n, own_ports(s[i]))),
            EdgeTarget::Entity(e) => reqs.contains(
                if nodes.contains_key(e) {
                    RequestView::Apply(nodes[e], own_ports(s[i]))
                } else {
                    RequestView::MissingEntity(e)
                },
            ),
            EdgeTarget::Label(l) => if !labels.contains_key(l) {
                kept.contains(s[i])
            } else if nodes.contains_key(labels[l]) {
                reqs.contains(RequestView::Apply(nodes[labels[l]], own_ports(s[i])))
            } else {
                reqs.contains(RequestView::MissingEntity(labels[l]))
            },
        } by {
            if i < last {
                assert(s[i] == t[i]);
            } else {
                match edge.target {
                    EdgeTarget::Node(n) => {
                        assert(reqs[reqs.len() - 1] == RequestView::Apply(n, own_ports(s[i])));
                    },
                    EdgeTarget::Entity(e) => {
                        assert(reqs[reqs.len() - 1] == (if nodes.contains_key(e) {
                            RequestView::Apply(nodes[e], own_ports(s[i]))
                        } else {
                            RequestView::MissingEntity(e)
                        }));
                    },
                    EdgeTarget::Label(l) => {
                        if !labels.contains_key(l) {
                            assert(kept[kept.len() - 1] == s[i]);
                        } else if nodes.contains_key(labels[l]) {
                            assert(reqs[reqs.len() - 1] == RequestView::Apply(
                                nodes[labels[l]],
                                own_ports(s[i]),
                            ));
                        } else {
                            assert(reqs[reqs.len() - 1] == RequestView::MissingEntity(labels[l]));
                        }
                    },
                }
            }
        }
        assert forall|p: int| #![trigger reqs[p]] 0 <= p < reqs.len() implies exists|i: int|
            0 <= i < s.len() && request_answers(#[trigger] s[i], reqs[p], labels, nodes) by {
            if p < rest.len() {
                assert(reqs[p] == rest[p]);
                let i = choose|i: int| 0 <= i < t.len() && request_answers(#[trigger] t[i], rest[p], labels, nodes);
                assert(s[i] == t[i]);
            } else {
                assert(request_answers(s[last], reqs[p], labels, nodes));
            }
        }
        assert forall|p: int| #![trigger kept[p]] 0 <= p < kept.len() implies exists|i: int|
            0 <= i < s.len() && #[trigger] s[i] == kept[p] && (s[i].target matches EdgeTarget::Label(l)
                && !labels.contains_key(l)) by {
            if p < rest_kept.len() {
                assert(kept[p] == rest_kept[p]);
                let i = choose|i: int|
                    0 <= i < t.len() && #[trigger] t[i] == rest_kept[p] && (t[i].target matches EdgeTarget::Label(l)
                        && !labels.contains_key(l));
                assert(s[i] == t[i]);
            } else {
                assert(s[last] == kept[p]);
            }
        }
    }
}

/// Every pending edge either keeps waiting or yields exactly one request.
pub proof fn lemma_every_edge_accounted(
    s: Seq<PendingEdge>,
    labels: Map<LabelId, EntityId>,
    nodes: Map<EntityId, NodeId>,
)
    ensures
        retained_edges(s, labels, nodes).len() + edge_requests(s, labels, nodes).len() == s.len(),
    decreases s.len(),
{
    if s.len() > 0 {
        lemma_every_edge_accounted(s.drop_last(), labels, nodes);
    }
}

/// Processing the waiting edges again against the same labels and nodes
/// keeps all of them waiting and requests nothing.
pub proof fn lemma_reprocessing_is_stable(
    s: Seq<PendingEdge>,
    labels: Map<LabelId, EntityId>,
    nodes: Map<EntityId, NodeId>,
)
    ensures
        retained_edges(retained_edges(s, labels, nodes), labels, nodes) == retained_edges(
            s,
            labels,
            nodes,
        ),
        edge_requests(retained_edges(s, labels, nodes), labels, nodes) == Seq::<RequestView>::empty(),
    decreases s.len(),
{
    if s.len() > 0 {
        lemma_reprocessing_is_stable(s.drop_last(), labels, nodes);
        let r = retained_edges(s.drop_last(), labels, nodes);
        if resolution(s.last().target, labels, nodes) == Resolution::Wait {
            assert(r.push(s.last()).drop_last() =~= r);
        }
    }
}

/// Once every label that the pending edges name is registered, nothing
/// is left waiting.
pub proof fn lemma_registered_labels_leave_nothing_waiting(
    s: Seq<PendingEdge>,
    labels: Map<LabelId, EntityId>,
    nodes: Map<EntityId, NodeId>,
)
    requires
        forall|i: int|
            0 <= i < s.len() ==> (#[trigger] s[i].target matches EdgeTarget::Label(l)
                ==> labels.contains_key(l)),
    ensures
        retained_edges(s, labels, nodes) == Seq::<PendingEdge>::empty(),
    decreases s.len(),
{
    if s.len() > 0 {
        assert(s.last() == s[s.len() - 1]);
        lemma_registered_labels_leave_nothing_waiting(s.drop_last(), labels, nodes);
    }
}

/// The head and tail of a chain of connected entities.
///
/// Connections are queued from the tail; chaining a node connects the
/// tail to it and makes it the new tail, while the head stays the entity
/// the chain started from.
#[derive(Debug, Clone, Copy)]
pub struct ConnectCommands {
    head: EntityId,
    tail: Option<EntityId>,
}

impl ConnectCommands {
    /// The entity the chain started from.
    pub closed spec fn spec_head(&self) -> EntityId {
        self.head
    }

    /// The entity connections are queued from.
    pub closed spec fn spec_tail(&self) -> EntityId {
        match self.tail {
            Some(t) => t,
            None => self.head,
        }
    }

    /// Start a chain at `head`.
    pub fn new(head: EntityId) -> (c: Self)
        ensures
            c.spec_head() == head,
            c.spec_tail() == head,
    {
        ConnectCommands { head, tail: None }
    }

    /// Get the head of this chain.
    pub fn head(&self) -> (e: EntityId)
        ensures
            e == self.spec_head(),
    {
        self.head
    }

    /// Get the tail of this chain: the head until a node is chained.
    pub fn tail(&self) -> (e: EntityId)
        ensures
            e == self.spec_tail(),
    {
        match self.tail {
            Some(t) => t,
            None => self.head,
        }
    }

    /// Queue a connection from the tail to `target` with the given ports.
    ///
    /// Returns the entity that receives the pending edge, and the edge.
    pub fn connect_with(&self, target: EdgeTarget, ports: Vec<(u32, u32)>) -> (r: (EntityId, PendingEdge))
        ensures
            r.0 == self.spec_tail(),
            r.1.target == target,
            r.1.ports == Some(ports),
    {
        (self.tail(), PendingEdge::new(target, Some(ports)))
    }

    /// Queue a stereo connection from the tail to `target`.
    pub fn connect(&self, target: EdgeTarget) -> (r: (EntityId, PendingEdge))
        ensures
            r.0 == self.spec_tail(),
            r.1.target == target,
            r.1.ports is Some,
            ports_of(r.1) == default_ports(),
    {
        self.connect_with(target, default_connection())
    }

    /// Chain the freshly spawned `node` after the tail with the given ports.
    ///
    /// Returns the entity that receives the pending edge, and the edge;
    /// `node` becomes the new tail.
    pub fn chain_node_with(&mut self, node: EntityId, ports: Vec<(u32, u32)>) -> (r: (EntityId, PendingEdge))
        ensures
            r.0 == old(self).spec_tail(),
            r.1.target == EdgeTarget::Entity(node),
            r.1.ports == Some(ports),
            final(self).spec_head() == old(self).spec_head(),
            final(self).spec_tail() == node,
    {
        let r = self.connect_with(EdgeTarget::Entity(node), ports);
        self.tail = Some(node);
        r
    }

    /// Chain `node` after the tail with a stereo connection.
    pub fn chain_node(&mut self, node: EntityId) -> (r: (EntityId, PendingEdge))
        ensures
            r.0 == old(self).spec_tail(),
            r.1.target == EdgeTarget::Entity(node),
            r.1.ports is Some,
            ports_of(r.1) == default_ports(),
            final(self).spec_head() == old(self).spec_head(),
            final(self).spec_tail() == node,
    {
        self.chain_node_with(node, default_connection())
    }
}

/// Disconnections queued from one entity.
///
/// Unlike a connection chain, every disconnection of the set is queued
/// on the entity the set started from.
#[derive(Debug, Clone, Copy)]
pub struct DisconnectCommands {
    head: EntityId,
}

impl DisconnectCommands {
    /// The entity every disconnection is queued on.
    pub closed spec fn spec_head(&self) -> EntityId {
        self.head
    }

    /// Start a set of disconnections from `head`.
    pub fn new(head: EntityId) -> (c: Self)
        ensures
            c.spec_head() == head,
    {
        DisconnectCommands { head }
    }

    /// The entity every disconnection is queued on.
    pub fn head(&self) -> (e: EntityId)
        ensures
            e == self.spec_head(),
    {
        self.head
    }

    /// Queue a disconnection from the head to `target` with the given ports.
    ///
    /// Returns the entity that receives the pending edge, and the edge.
    pub fn disconnect_with(&self, target: EdgeTarget, ports: Vec<(u32, u32)>) -> (r: (
        EntityId,
        PendingEdge,
    ))
        ensures
            r.0 == self.spec_head(),
            r.1.target == target,
            r.1.ports == Some(ports),
    {
        (self.head, PendingEdge::new(target, Some(ports)))
    }

    /// Queue a stereo disconnection from the head to `target`.
    pub fn disconnect(&self, target: EdgeTarget) -> (r: (EntityId, PendingEdge))
        ensures
            r.0 == self.spec_head(),
            r.1.target == target,
            r.1.ports is Some,
            ports_of(r.1) == default_ports(),
    {
        self.disconnect_with(target, default_connection())
    }
}

/// The automatic routing of an entity: one that carries an audio node
/// but has no connections of its own is connected to the main bus with
/// the stereo mapping; any other entity is left alone.
///
/// Returns the entity that receives the pending edge, and the edge.
pub fn auto_connection(entity: EntityId, has_node: bool, has_pending: bool) -> (r: Option<
    (EntityId, PendingEdge),
>)
    ensures
        r is Some <==> has_node && !has_pending,
        r matches Some((e, edge)) ==> e == entity && edge.target == EdgeTarget::Label(MAIN_BUS)
            && edge.ports is Some && ports_of(edge) == default_ports(),
{
    if has_node && !has_pending {
        Some(ConnectCommands::new(entity).connect(EdgeTarget::Label(MAIN_BUS)))
    } else {
        None
    }
}

} // verus!
