use seedling::edge::{
    auto_connection, default_connection, resolve, ConnectCommands, DisconnectCommands, EdgeRequest, EdgeTarget, EntityId, NodeId,
    NodeMap, PendingConnections, PendingDisconnections, PendingEdge, Resolution,
};
use seedling::send::MAIN_BUS;
use std::collections::HashMap;

const GRAPH_OUTPUT: u64 = 1;

/// A small stand-in for the audio graph: entities carry nodes, and edges
/// are (source node, destination node, source port, destination port).
struct World {
    labels: NodeMap,
    nodes: HashMap<EntityId, NodeId>,
    pending: HashMap<EntityId, PendingConnections>,
    edges: Vec<(NodeId, NodeId, u32, u32)>,
}

impl World {
    fn new() -> Self {
        let mut world = World {
            labels: NodeMap::new(),
            nodes: HashMap::new(),
            pending: HashMap::new(),
            edges: Vec::new(),
        };
        // graph input and output
        world.spawn(1, None);
        world.spawn(2, Some(GRAPH_OUTPUT));
        world
    }

    fn spawn(&mut self, entity: EntityId, label: Option<u64>) {
        self.nodes.insert(entity, 100 + entity);
        if let Some(l) = label {
            self.labels.insert(l, entity);
        }
    }

    fn queue(&mut self, (source, edge): (EntityId, PendingEdge)) {
        self.pending.entry(source).or_default().push(edge);
    }

    /// Entities without any routing go to the main bus; then every
    /// pending connection is resolved.
    fn update(&mut self, routable: &[EntityId]) {
        for e in routable {
            let has_node = self.nodes.contains_key(e);
            if let Some(c) = auto_connection(*e, has_node, self.pending.contains_key(e)) {
                self.queue(c);
            }
        }
        let mut sources: Vec<_> = self.pending.keys().copied().collect();
        sources.sort();
        for source in sources {
            let src_node = self.nodes[&source];
            let pending = self.pending.get_mut(&source).unwrap();
            for request in pending.process(&self.labels, &self.nodes) {
                if let EdgeRequest::Apply { dst, ports } = request {
                    for (a, b) in ports {
                        self.edges.push((src_node, dst, a, b));
                    }
                }
            }
        }
    }

    /// The number of nodes in the graph, after checking that every edge
    /// runs between two of them.
    fn node_count(&self) -> usize {
        let known: Vec<NodeId> = self.nodes.values().copied().collect();
        assert!(self.edges.iter().all(|e| known.contains(&e.0) && known.contains(&e.1)));
        known.len()
    }

    fn outgoing(&self, entity: EntityId) -> Vec<(NodeId, NodeId, u32, u32)> {
        let n = self.nodes[&entity];
        self.edges.iter().copied().filter(|e| e.0 == n).collect()
    }
}

#[test]
fn connect_test_chain() {
    let mut w = World::new();
    let (one, two, main) = (3, 4, 5);
    w.spawn(one, None);
    w.spawn(two, None);
    w.spawn(main, Some(MAIN_BUS));

    let mut chain = ConnectCommands::new(one);
    let c = chain.chain_node(two);
    w.queue(c);
    w.queue(ConnectCommands::new(main).connect(EdgeTarget::Label(GRAPH_OUTPUT)));
    w.update(&[one, two, main]);

    // input node, output node, One, Two, and MainBus
    assert_eq!(w.node_count(), 5);
    let outgoing_edges_one = w.outgoing(one);
    let outgoing_edges_two = w.outgoing(two);
    assert_eq!(outgoing_edges_one.len(), 2);
    assert_eq!(outgoing_edges_two.len(), 2);
    assert!(outgoing_edges_one.iter().all(|e| e.1 == w.nodes[&two]));
    assert!(outgoing_edges_two.iter().all(|e| e.1 == w.nodes[&main]));
    assert!(w.outgoing(main).iter().all(|e| e.1 == w.nodes[&2]));
    assert_eq!(w.outgoing(main).len(), 2);
}

#[test]
fn connect_test_fanout() {
    let mut w = World::new();
    let (one, two, three, main) = (3, 4, 6, 5);
    w.spawn(one, None);
    w.spawn(two, None);
    w.spawn(three, None);
    w.spawn(main, Some(MAIN_BUS));

    let a = ConnectCommands::new(one).head();
    let b = ConnectCommands::new(two).head();
    let chain = ConnectCommands::new(three);
    w.queue(chain.connect(EdgeTarget::Entity(a)));
    w.queue(chain.connect(EdgeTarget::Entity(b)));
    w.queue(ConnectCommands::new(main).connect(EdgeTarget::Label(GRAPH_OUTPUT)));
    w.update(&[one, two, three, main]);

    // input node, output node, One, Two, Three, and MainBus
    assert_eq!(w.node_count(), 6);
    let outgoing_edges_three = w.outgoing(three);
    assert_eq!(
        outgoing_edges_three.iter().filter(|e| e.1 == w.nodes[&one]).count(),
        2
    );
    assert_eq!(
        outgoing_edges_three.iter().filter(|e| e.1 == w.nodes[&two]).count(),
        2
    );
}

#[test]
fn disconnect_test_disconnect() {
    let mut w = World::new();
    let (one, two, main) = (3, 4, 5);
    w.spawn(one, None);
    w.spawn(two, None);
    w.spawn(main, Some(MAIN_BUS));

    let mut chain = ConnectCommands::new(one);
    let c = chain.chain_node(two);
    w.queue(c);
    w.queue(chain.connect(EdgeTarget::Label(MAIN_BUS)));
    w.update(&[one, two, main]);

    // first, verify they're all connected
    assert_eq!(w.node_count(), 5);
    assert_eq!(w.outgoing(one).len(), 2);
    assert_eq!(w.outgoing(two).len(), 2);
    assert!(w.outgoing(one).iter().all(|e| e.1 == w.nodes[&two]));
    assert!(w.outgoing(two).iter().all(|e| e.1 == w.nodes[&main]));

    // Then, apply a disconnection
    let mut pending = PendingDisconnections::default();
    pending.push(PendingEdge::new(EdgeTarget::Entity(two), None));
    let src = w.nodes[&one];
    for request in pending.process(&w.labels, &w.nodes) {
        if let EdgeRequest::Apply { dst, ports } = request {
            w.edges
                .retain(|e| !(e.0 == src && e.1 == dst && ports.contains(&(e.2, e.3))));
        }
    }
    assert!(pending.is_empty());

    // finally, verify one and two are disconnected
    assert_eq!(w.node_count(), 5);
    let outgoing_edges_one = w.outgoing(one);
    let outgoing_edges_two = w.outgoing(two);
    assert_eq!(outgoing_edges_one.len(), 0);
    assert_eq!(outgoing_edges_two.len(), 2);
    assert!(outgoing_edges_one.iter().all(|e| e.1 == w.nodes[&two]));
    assert!(outgoing_edges_two.iter().all(|e| e.1 == w.nodes[&main]));
}

#[test]
fn unknown_label_waits_until_registered() {
    let mut labels = NodeMap::new();
    let mut nodes = HashMap::new();
    nodes.insert(7u64, 70u64);
    let mut pending = PendingConnections::new();
    pending.push(PendingEdge::new(EdgeTarget::Label(9), None));

    let requests = pending.process(&labels, &nodes);
    assert!(requests.is_empty());
    assert!(!pending.is_empty());

    // processing again changes nothing
    let requests = pending.process(&labels, &nodes);
    assert!(requests.is_empty());
    assert!(!pending.is_empty());

    labels.insert(9, 7);
    let requests = pending.process(&labels, &nodes);
    assert!(pending.is_empty());
    match &requests[..] {
        [EdgeRequest::Apply { dst, ports }] => {
            assert_eq!(*dst, 70);
            assert_eq!(ports, &vec![(0, 0), (1, 1)]);
        }
        other => panic!("unexpected requests {other:?}"),
    }
}

#[test]
fn entity_without_node_is_dropped() {
    let labels = NodeMap::new();
    let nodes: HashMap<u64, u64> = HashMap::new();
    let mut pending = PendingConnections::new();
    pending.push(PendingEdge::new(EdgeTarget::Entity(3), Some(vec![(0, 1)])));
    let requests = pending.process(&labels, &nodes);
    assert!(pending.is_empty());
    assert!(matches!(&requests[..], [EdgeRequest::MissingEntity(3)]));
}

#[test]
fn node_target_connects_directly_with_given_ports() {
    let labels = NodeMap::new();
    let nodes: HashMap<u64, u64> = HashMap::new();
    let mut pending = PendingConnections::new();
    pending.push(PendingEdge::new(EdgeTarget::Node(55), Some(vec![(2, 0), (3, 1)])));
    pending.push(PendingEdge::new(EdgeTarget::Label(4), None));
    pending.push(PendingEdge::new(EdgeTarget::Node(56), None));
    let requests = pending.process(&labels, &nodes);
    // every edge is accounted for: one waits, two yield requests
    assert_eq!(requests.len(), 2);
    assert!(!pending.is_empty());
    match &requests[..] {
        [EdgeRequest::Apply { dst: 55, ports: p1 }, EdgeRequest::Apply { dst: 56, ports: p2 }] => {
            assert_eq!(p1, &vec![(2, 0), (3, 1)]);
            assert_eq!(p2, &default_connection());
        }
        other => panic!("unexpected requests {other:?}"),
    }
}

#[test]
fn resolution_cases() {
    let mut labels = NodeMap::new();
    labels.insert(1, 10);
    labels.insert(2, 20);
    let mut nodes = HashMap::new();
    nodes.insert(10u64, 100u64);
    assert_eq!(resolve(EdgeTarget::Node(5), &labels, &nodes), Resolution::Node(5));
    assert_eq!(resolve(EdgeTarget::Entity(10), &labels, &nodes), Resolution::Node(100));
    assert_eq!(resolve(EdgeTarget::Entity(11), &labels, &nodes), Resolution::MissingEntity(11));
    assert_eq!(resolve(EdgeTarget::Label(1), &labels, &nodes), Resolution::Node(100));
    assert_eq!(resolve(EdgeTarget::Label(2), &labels, &nodes), Resolution::MissingEntity(20));
    assert_eq!(resolve(EdgeTarget::Label(3), &labels, &nodes), Resolution::Wait);
}

#[test]
fn node_map_forgets_labels() {
    let mut map = NodeMap::new();
    map.insert(1, 10);
    map.insert(2, 20);
    map.insert(3, 30);
    map.remove_labels(&[1, 3, 4]);
    assert_eq!(map.get(1), None);
    assert_eq!(map.get(2), Some(20));
    assert_eq!(map.get(3), None);
}

#[test]
fn chain_head_and_tail() {
    let mut chain = ConnectCommands::new(1);
    assert_eq!(chain.head(), 1);
    assert_eq!(chain.tail(), 1);
    let (src, edge) = chain.chain_node(2);
    assert_eq!(src, 1);
    assert_eq!(edge.target, EdgeTarget::Entity(2));
    let (src, _) = chain.chain_node_with(3, vec![(0, 0)]);
    assert_eq!(src, 2);
    assert_eq!(chain.head(), 1);
    assert_eq!(chain.tail(), 3);
    let (src, edge) = chain.connect_with(EdgeTarget::Label(MAIN_BUS), vec![(1, 0)]);
    assert_eq!(src, 3);
    assert_eq!(edge.ports, Some(vec![(1, 0)]));
}

#[test]
fn disconnect_commands_queue_on_the_head() {
    let set = DisconnectCommands::new(7);
    assert_eq!(set.head(), 7);

    let (entity, edge) = set.disconnect(EdgeTarget::Entity(9));
    assert_eq!(entity, 7);
    assert_eq!(edge.target, EdgeTarget::Entity(9));
    assert_eq!(edge.ports, Some(vec![(0, 0), (1, 1)]));

    let (entity, edge) = set.disconnect_with(EdgeTarget::Label(MAIN_BUS), vec![(2, 0)]);
    assert_eq!(entity, 7);
    assert_eq!(edge.target, EdgeTarget::Label(MAIN_BUS));
    assert_eq!(edge.ports, Some(vec![(2, 0)]));
}

#[test]
fn stereo_connections_carry_their_ports() {
    let mut chain = ConnectCommands::new(1);
    let (_, edge) = chain.connect(EdgeTarget::Entity(2));
    assert_eq!(edge.ports, Some(vec![(0, 0), (1, 1)]));
    let (from, edge) = chain.chain_node(3);
    assert_eq!(from, 1);
    assert_eq!(edge.ports, Some(vec![(0, 0), (1, 1)]));
    assert_eq!(chain.tail(), 3);
}

#[test]
fn only_unrouted_nodes_are_routed_automatically() {
    let (entity, edge) = auto_connection(7, true, false).expect("routed to the main bus");
    assert_eq!(entity, 7);
    assert_eq!(edge.target, EdgeTarget::Label(MAIN_BUS));
    assert_eq!(edge.ports, Some(vec![(0, 0), (1, 1)]));
    assert!(auto_connection(7, true, true).is_none());
    assert!(auto_connection(7, false, false).is_none());
}
