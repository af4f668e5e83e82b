//! Pausing and stopping audio nodes.
//!
//! An entity carries up to two markers, *pause* and *stop*. Adding or
//! removing a marker queues at most one event for the entity's node.
use vstd::prelude::*;

verus! {

/// An activity event queued for an audio node.
#[derive(Debug, Clone, Copy, PartialEq, Eq, Structural)]
pub enum ActivityEvent {
    /// Pause the node, keeping its queued events.
    Pause,
    /// Resume the node.
    Resume,
    /// Stop the node, discarding its queued events.
    Stop,
}

/// The pause marker was added; `stopped` tells whether the stop marker
/// is present. A stopped node is not paused on top.
pub fn on_add_pause(stopped: bool) -> (event: Option<ActivityEvent>)
    ensures
        event == (if stopped {
            None
        } else {
            Some(ActivityEvent::Pause)
        }),
{
    if stopped {
        None
    } else {
        Some(ActivityEvent::Pause)
    }
}

/// The pause marker was removed; a node that is still stopped is not
/// resumed.
pub fn on_remove_pause(stopped: bool) -> (event: Option<ActivityEvent>)
    ensures
        event == (if stopped {
            None
        } else {
            Some(ActivityEvent::Resume)
        }),
{
    if stopped {
        None
    } else {
        Some(ActivityEvent::Resume)
    }
}

/// The stop marker was added; the node is always stopped.
pub fn on_add_stop() -> (event: Option<ActivityEvent>)
    ensures
        event == Some(ActivityEvent::Stop),
{
    Some(ActivityEvent::Stop)
}

/// The stop marker was removed; a node that is still paused is not
/// resumed.
pub fn on_remove_stop(paused: bool) -> (event: Option<ActivityEvent>)
    ensures
        event == (if paused {
            None
        } else {
            Some(ActivityEvent::Resume)
        }),
{
    if paused {
        None
    } else {
        Some(ActivityEvent::Resume)
    }
}

/// What a node does after receiving activity events.
pub enum NodeActivity {
    Running,
    Paused,
    Stopped,
}

/// The node's activity after an optional event.
pub open spec fn apply_event(state: NodeActivity, event: Option<ActivityEvent>) -> NodeActivity {
    match event {
        None => state,
        Some(ActivityEvent::Pause) => match state {
            NodeActivity::Stopped => NodeActivity::Stopped,
            _ => NodeActivity::Paused,
        },
        Some(ActivityEvent::Resume) => NodeActivity::Running,
        Some(ActivityEvent::Stop) => NodeActivity::Stopped,
    }
}

/// A marker change on an entity.
pub enum MarkerChange {
    AddPause,
    RemovePause,
    AddStop,
    RemoveStop,
}

/// The event queued for a marker change, given the markers before it.
pub open spec fn change_event(change: MarkerChange, paused: bool, stopped: bool) -> Option<
    ActivityEvent,
> {
    match change {
        MarkerChange::AddPause => if stopped {
            None
        } else {
            Some(ActivityEvent::Pause)
        },
        MarkerChange::RemovePause => if stopped {
            None
        } else {
            Some(ActivityEvent::Resume)
        },
        MarkerChange::AddStop => Some(ActivityEvent::Stop),
        MarkerChange::RemoveStop => if paused {
            None
        } else {
            Some(ActivityEvent::Resume)
        },
    }
}

/// Whether the change alters the markers: adding a present marker or
/// removing an absent one is not a change.
pub open spec fn change_applies(change: MarkerChange, paused: bool, stopped: bool) -> bool {
    match change {
        MarkerChange::AddPause => !paused,
        MarkerChange::RemovePause => paused,
        MarkerChange::AddStop => !stopped,
        MarkerChange::RemoveStop => stopped,
    }
}

/// The markers (paused, stopped) after a change.
pub open spec fn markers_after(change: MarkerChange, paused: bool, stopped: bool) -> (bool, bool) {
    match change {
        MarkerChange::AddPause => (true, stopped),
        MarkerChange::RemovePause => (false, stopped),
        MarkerChange::AddStop => (paused, true),
        MarkerChange::RemoveStop => (paused, false),
    }
}

/// The node runs exactly when the entity carries neither marker, and a
/// node whose entity carries the stop marker is stopped.
pub open spec fn consistent(state: NodeActivity, paused: bool, stopped: bool) -> bool {
    &&& (state is Running <==> (!paused && !stopped))
    &&& (stopped ==> state is Stopped)
}

/// The events queued by the markers keep a node running exactly when its
/// entity is neither paused nor stopped, and stopped whenever the stop
/// marker is present.
pub proof fn lemma_markers_control_activity(
    state: NodeActivity,
    change: MarkerChange,
    paused: bool,
    stopped: bool,
)
    requires
        consistent(state, paused, stopped),
        change_applies(change, paused, stopped),
    ensures
        consistent(
            apply_event(state, change_event(change, paused, stopped)),
            markers_after(change, paused, stopped).0,
            markers_after(change, paused, stopped).1,
        ),
{
}

} // verus!
