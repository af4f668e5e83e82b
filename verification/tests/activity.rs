use seedling::activity::{on_add_pause, on_add_stop, on_remove_pause, on_remove_stop, ActivityEvent};

#[test]
fn pause_and_resume() {
    assert_eq!(on_add_pause(false), Some(ActivityEvent::Pause));
    assert_eq!(on_remove_pause(false), Some(ActivityEvent::Resume));
}

#[test]
fn stop_overrides_pause() {
    assert_eq!(on_add_stop(), Some(ActivityEvent::Stop));
    // pausing a stopped node does nothing
    assert_eq!(on_add_pause(true), None);
    // removing the pause while stopped does not resume
    assert_eq!(on_remove_pause(true), None);
    // removing the stop resumes
    assert_eq!(on_remove_stop(false), Some(ActivityEvent::Resume));
}

#[test]
fn stopped_and_paused_stays_paused() {
    // Removing the stop marker while the pause marker remains keeps the node silent.
    assert_eq!(on_remove_stop(true), None);
}
