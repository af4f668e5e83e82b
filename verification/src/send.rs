//! Routing for send nodes.
//!
//! A send node with `n` channels has `2n` outputs: outputs `0..n` pass
//! the input along untouched, outputs `n..2n` carry the send signal.
use crate::edge::{EdgeTarget, LabelId, PendingEdge, ports_of};
use vstd::prelude::*;

verus! {

/// The label of the main bus, through which all audio reaches the output.
pub const MAIN_BUS: LabelId = 0;

/// The largest number of channels an audio node port list may have.
pub const MAX_CHANNELS: u32 = 64;

/// `(n + c, c)` for every channel `c` below `n`: the send outputs into
/// the target's inputs.
pub open spec fn send_port_map(n: nat) -> Seq<(u32, u32)> {
    Seq::new(n, |c: int| ((n + c) as u32, c as u32))
}

/// `(c, c)` for every channel `c` below `n`: the direct outputs.
pub open spec fn direct_port_map(n: nat) -> Seq<(u32, u32)> {
    Seq::new(n, |c: int| (c as u32, c as u32))
}

/// The port mapping from a send node's send outputs to its target.
pub fn send_ports(total_channels: u32) -> (ports: Vec<(u32, u32)>)
    requires
        2 * total_channels <= u32::MAX + 1,
    ensures
        ports@ == send_port_map(total_channels as nat),
{
    let mut ports: Vec<(u32, u32)> = Vec::new();
    let mut c: u32 = 0;
    while c < total_channels
        invariant
            c <= total_channels,
            2 * total_channels <= u32::MAX + 1,
            ports@ == send_port_map(total_channels as nat).subrange(0, c as int),
        decreases total_channels - c,
    {
        ports.push((c + total_channels, c));
        proof {
            assert(ports@ =~= send_port_map(total_channels as nat).subrange(0, c + 1));
        }
        c = c + 1;
    }
    proof {
        assert(ports@ =~= send_port_map(total_channels as nat));
    }
    ports
}

/// The port mapping from a send node's direct outputs to the main bus.
pub fn direct_ports(total_channels: u32) -> (ports: Vec<(u32, u32)>)
    ensures
        ports@ == direct_port_map(total_channels as nat),
{
    let mut ports: Vec<(u32, u32)> = Vec::new();
    let mut c: u32 = 0;
    while c < total_channels
        invariant
            c <= total_channels,
            ports@ == direct_port_map(total_channels as nat).subrange(0, c as int),
        decreases total_channels - c,
    {
        ports.push((c, c));
        proof {
            assert(ports@ =~= direct_port_map(total_channels as nat).subrange(0, c + 1));
        }
        c = c + 1;
    }
    proof {
        assert(ports@ =~= direct_port_map(total_channels as nat));
    }
    ports
}

/// The pending connections queued for a newly added send node.
///
/// The send outputs always go to `target`. A node that has no other
/// routing (`routed` is false) also sends its direct outputs to the main
/// bus, since it will not be connected there automatically.
pub fn send_connections(target: EdgeTarget, total_channels: u32, routed: bool) -> (edges: Vec<
    PendingEdge,
>)
    requires
        2 * total_channels <= u32::MAX + 1,
    ensures
        edges@.len() == (if routed {
            1int
        } else {
            2
        }),
        edges@[0].target == target,
        edges@[0].ports is Some,
        ports_of(edges@[0]) == send_port_map(total_channels as nat),
        !routed ==> edges@[1].target == EdgeTarget::Label(MAIN_BUS),
        !routed ==> edges@[1].ports is Some,
        !routed ==> ports_of(edges@[1]) == direct_port_map(total_channels as nat),
{
    let mut edges: Vec<PendingEdge> = Vec::new();
    edges.push(PendingEdge::new(target, Some(send_ports(total_channels))));
    if !routed {
        edges.push(PendingEdge::new(EdgeTarget::Label(MAIN_BUS), Some(direct_ports(total_channels))));
    }
    edges
}

/// The routing change when a followed send node's target changes.
///
/// Returns `None` when the target is unchanged; otherwise the connection
/// to queue for the new target and the old target to disconnect.
pub fn retarget_send(old_target: EdgeTarget, new_target: EdgeTarget, total_channels: u32) -> (r:
    Option<(PendingEdge, EdgeTarget)>)
    requires
        2 * total_channels <= u32::MAX + 1,
    ensures
        old_target == new_target <==> r is None,
        r matches Some((edge, stale)) ==> edge.target == new_target && edge.ports is Some && ports_of(edge)
            == send_port_map(total_channels as nat) && stale == old_target,
{
    if old_target == new_target {
        return None;
    }
    Some((PendingEdge::new(new_target, Some(send_ports(total_channels))), old_target))
}

/// The number of outputs of a send node with `channels` inputs: twice
/// as many, if that still fits an audio node.
pub fn send_output_channels(channels: u32) -> (outputs: Option<u32>)
    ensures
        outputs == (if 2 * channels <= MAX_CHANNELS {
            Some((2 * channels) as u32)
        } else {
            None
        }),
{
    if channels <= MAX_CHANNELS / 2 {
        Some(channels * 2)
    } else {
        None
    }
}

/// The mask with the lowest `n` bits set.
pub open spec fn low_bits(n: nat) -> u64 {
    if n >= 64 {
        u64::MAX
    } else {
        ((1u64 << n) - 1) as u64
    }
}

/// The silence mask of a send node's outputs when its send is silent:
/// every output from `channels` upwards is silent.
pub fn send_silence_mask(channels: u32) -> (mask: u64)
    requires
        channels <= 64,
    ensures
        mask == !low_bits(channels as nat),
{
    let mut silence_mask: u64 = 0;
    let mut i: u32 = 0;
    proof {
        assert((((1u64 << 0u64) - 1) as u64) == 0u64) by (bit_vector);
    }
    while i < channels
        invariant
            i <= channels <= 64,
            silence_mask == low_bits(i as nat),
        decreases channels - i,
    {
        let bit: u64 = 1u64 << i;
        proof {
            let k = i as u64;
            if i < 63 {
                assert((((1u64 << k) - 1) as u64) | (1u64 << k) == (((1u64 << (k + 1)) - 1) as u64)) by (bit_vector)
                    requires
                        k < 63,
                ;
            } else {
                assert((((1u64 << 63u64) - 1) as u64) | (1u64 << 63u64) == 0xffff_ffff_ffff_ffffu64) by (bit_vector);
            }
        }
        silence_mask = silence_mask | bit;
        i = i + 1;
    }
    !silence_mask
}

} // verus!
