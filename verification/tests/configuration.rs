use seedling::configuration::{
    graph_plan, reconcile_devices, reselect_device, DeviceAction, DeviceInfo, GraphConfiguration,
    GraphNode, node_kind, pool_effects, NodeKind, SampleEffect,
};

fn dev(name: &str, num_channels: u16, is_default: bool) -> DeviceInfo {
    DeviceInfo { name: name.to_string(), num_channels, is_default }
}

#[test]
fn reconcile_spawns_updates_and_despawns() {
    let known = vec![(1u64, dev("a", 2, true)), (2u64, dev("b", 2, false)), (3u64, dev("c", 1, false))];
    let available = vec![dev("a", 2, true), dev("b", 4, false), dev("d", 2, false)];
    let actions = reconcile_devices(&known, &available);
    assert_eq!(actions.len(), 3);
    match &actions[0] {
        DeviceAction::Update { entity, info } => {
            assert_eq!(*entity, 2);
            assert_eq!(info.num_channels, 4);
        }
        other => panic!("unexpected {other:?}"),
    }
    match &actions[1] {
        DeviceAction::Spawn { info } => assert_eq!(info.name, "d"),
        other => panic!("unexpected {other:?}"),
    }
    match &actions[2] {
        DeviceAction::Despawn { entity } => assert_eq!(*entity, 3),
        other => panic!("unexpected {other:?}"),
    }
}

#[test]
fn reconcile_unchanged_is_quiet() {
    let known = vec![(1u64, dev("a", 2, true))];
    let available = vec![dev("a", 2, true)];
    assert!(reconcile_devices(&known, &available).is_empty());
}

#[test]
fn reselect_keeps_available_device() {
    let available = vec![dev("a", 2, false), dev("b", 2, true)];
    assert_eq!(reselect_device(Some("a".to_string()), &available), Some("a".to_string()));
}

#[test]
fn reselect_falls_back_to_default() {
    let available = vec![dev("x", 2, false), dev("b", 2, true), dev("c", 2, true)];
    assert_eq!(reselect_device(Some("gone".to_string()), &available), Some("b".to_string()));
    let no_default = vec![dev("x", 2, false)];
    assert_eq!(reselect_device(Some("gone".to_string()), &no_default), None);
    assert_eq!(reselect_device(None, &available), None);
}

#[test]
fn game_is_the_default_graph() {
    assert_eq!(GraphConfiguration::default(), GraphConfiguration::Game);
}

/// Follow the plan from `node` to the output: explicit connections
/// first, the main bus otherwise.
fn path_to_output(plan: &[(GraphNode, Option<GraphNode>)], mut node: GraphNode) -> Vec<GraphNode> {
    let mut path = vec![node];
    while node != GraphNode::Output && path.len() < 10 {
        let entry = plan.iter().find(|(n, _)| *n == node).expect("node is planned");
        node = entry.1.unwrap_or(GraphNode::MainBus);
        path.push(node);
    }
    path
}

#[test]
fn game_graph_matches_its_diagram() {
    let plan = graph_plan(GraphConfiguration::Game);
    assert_eq!(
        plan,
        vec![
            (GraphNode::MainBus, Some(GraphNode::Limiter)),
            (GraphNode::Limiter, Some(GraphNode::Output)),
            (GraphNode::SfxBus, None),
            (GraphNode::DynamicBus, Some(GraphNode::SfxBus)),
            (GraphNode::DefaultPool, Some(GraphNode::SfxBus)),
            (GraphNode::SpatialPool, Some(GraphNode::SfxBus)),
            (GraphNode::MusicPool, None),
        ]
    );
    assert_eq!(
        path_to_output(&plan, GraphNode::SpatialPool),
        vec![
            GraphNode::SpatialPool,
            GraphNode::SfxBus,
            GraphNode::MainBus,
            GraphNode::Limiter,
            GraphNode::Output
        ]
    );
    assert_eq!(
        path_to_output(&plan, GraphNode::MusicPool),
        vec![GraphNode::MusicPool, GraphNode::MainBus, GraphNode::Limiter, GraphNode::Output]
    );
}

#[test]
fn minimal_and_empty_graphs() {
    let plan = graph_plan(GraphConfiguration::Minimal);
    assert_eq!(
        plan,
        vec![
            (GraphNode::MainBus, Some(GraphNode::Output)),
            (GraphNode::DynamicBus, None),
            (GraphNode::DefaultPool, None),
        ]
    );
    for (node, _) in &plan {
        assert_eq!(path_to_output(&plan, *node).last(), Some(&GraphNode::Output));
    }
    assert!(graph_plan(GraphConfiguration::Empty).is_empty());
}

#[test]
fn planned_nodes_carry_their_audio_nodes() {
    for (node, _) in graph_plan(GraphConfiguration::Game) {
        let expected = match node {
            GraphNode::MainBus | GraphNode::SfxBus | GraphNode::DynamicBus => NodeKind::Volume,
            GraphNode::Limiter => NodeKind::Limiter,
            _ => NodeKind::SamplerPool,
        };
        assert_eq!(node_kind(node), expected);
    }
    assert_eq!(node_kind(GraphNode::Output), NodeKind::GraphOutput);
    assert_eq!(pool_effects(GraphNode::DefaultPool), vec![SampleEffect::Volume]);
    assert_eq!(pool_effects(GraphNode::MusicPool), vec![SampleEffect::Volume]);
    assert_eq!(
        pool_effects(GraphNode::SpatialPool),
        vec![SampleEffect::Volume, SampleEffect::SpatialBasic]
    );
    assert!(pool_effects(GraphNode::SfxBus).is_empty());
}
