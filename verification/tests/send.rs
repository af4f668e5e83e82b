use seedling::edge::EdgeTarget;
use seedling::send::{
    direct_ports, retarget_send, send_connections, send_output_channels, send_ports,
    send_silence_mask, MAIN_BUS,
};

#[test]
fn stereo_send_ports() {
    assert_eq!(send_ports(2), vec![(2, 0), (3, 1)]);
    assert_eq!(direct_ports(2), vec![(0, 0), (1, 1)]);
    assert_eq!(send_ports(0), vec![]);
}

#[test]
fn unrouted_send_also_reaches_main_bus() {
    let edges = send_connections(EdgeTarget::Entity(9), 2, false);
    assert_eq!(edges.len(), 2);
    assert_eq!(edges[0].target, EdgeTarget::Entity(9));
    assert_eq!(edges[0].ports, Some(vec![(2, 0), (3, 1)]));
    assert_eq!(edges[1].target, EdgeTarget::Label(MAIN_BUS));
    assert_eq!(edges[1].ports, Some(vec![(0, 0), (1, 1)]));

    let edges = send_connections(EdgeTarget::Label(5), 1, true);
    assert_eq!(edges.len(), 1);
    assert_eq!(edges[0].ports, Some(vec![(1, 0)]));
}

#[test]
fn retarget_only_on_change() {
    assert!(retarget_send(EdgeTarget::Node(1), EdgeTarget::Node(1), 2).is_none());
    let (edge, stale) = retarget_send(EdgeTarget::Node(1), EdgeTarget::Label(3), 2).unwrap();
    assert_eq!(edge.target, EdgeTarget::Label(3));
    assert_eq!(edge.ports, Some(vec![(2, 0), (3, 1)]));
    assert_eq!(stale, EdgeTarget::Node(1));
}

#[test]
fn output_channel_limit() {
    assert_eq!(send_output_channels(2), Some(4));
    assert_eq!(send_output_channels(32), Some(64));
    assert_eq!(send_output_channels(33), None);
}

#[test]
fn silence_masks() {
    assert_eq!(send_silence_mask(2), !0b11u64);
    assert_eq!(send_silence_mask(0), u64::MAX);
    assert_eq!(send_silence_mask(64), 0);
    assert_eq!(send_silence_mask(63), 1u64 << 63);
}
