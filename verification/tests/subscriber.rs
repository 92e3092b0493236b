use cryptomeria_historic::subscriber::{
    BrokerAction, BrokerState, ConnEvent, DOWN_THRESHOLD_TICKS, PipeChange, RecvOutcome,
    broker_step, connectivity_event, pipe_count_after,
};

#[test]
fn event_healthy_message_no_change() {
    let (down, streak, ev) = connectivity_event(false, 1, true, 0);
    assert!(!down);
    assert_eq!(streak, 0);
    assert_eq!(ev, None);
}

#[test]
fn event_connected_idle_no_flap() {
    let (down, streak, ev) = connectivity_event(false, 1, false, 0);
    assert!(!down);
    assert_eq!(streak, 0);
    assert_eq!(ev, None);
}

#[test]
fn event_pipe_gone_first_timeout_scratches_streak_without_down() {
    let (down, streak, ev) = connectivity_event(false, 0, false, 0);
    assert!(!down);
    assert_eq!(streak, 1);
    assert_eq!(ev, None);
}

#[test]
fn event_pipe_gone_second_timeout_emits_down() {
    let (down, streak, ev) = connectivity_event(false, 0, false, 1);
    assert!(down);
    assert_eq!(streak, 2);
    assert_eq!(ev, Some(ConnEvent::Down));
}

#[test]
fn event_already_down_sustained_no_repeat() {
    let (down, _streak, ev) = connectivity_event(true, 0, false, 2);
    assert!(down);
    assert_eq!(ev, None);
}

#[test]
fn event_recovery_via_pipe_reconnect() {
    let (down, _streak, ev) = connectivity_event(true, 1, false, 5);
    assert!(!down);
    assert_eq!(ev, Some(ConnEvent::Up));
}

#[test]
fn event_recovery_via_message() {
    let (down, _streak, ev) = connectivity_event(true, 1, true, 0);
    assert!(!down);
    assert_eq!(ev, Some(ConnEvent::Up));
}

#[test]
fn event_connected_idle_after_down_recovers() {
    let (down, _streak, ev) = connectivity_event(true, 1, false, 3);
    assert!(!down);
    assert_eq!(ev, Some(ConnEvent::Up));
}

#[test]
fn event_message_without_pipe_resets_streak() {
    assert_eq!(connectivity_event(true, 0, true, 7), (false, 0, Some(ConnEvent::Up)));
    assert_eq!(connectivity_event(false, 0, true, 1), (false, 0, None));
}

#[test]
fn down_threshold_is_two_ticks() {
    assert_eq!(DOWN_THRESHOLD_TICKS, 2);
}

#[test]
fn events_alternate_over_a_trace() {
    let ticks: [(usize, bool); 9] = [
        (1, true),
        (0, false),
        (0, false),
        (0, false),
        (0, false),
        (1, false),
        (0, false),
        (0, false),
        (0, true),
    ];
    let mut down = false;
    let mut streak = 0u32;
    let mut events = Vec::new();
    for (pipes, ok) in ticks {
        let (d, s, ev) = connectivity_event(down, pipes, ok, streak);
        down = d;
        streak = s;
        if let Some(e) = ev {
            events.push(e);
        }
    }
    assert_eq!(
        events,
        vec![ConnEvent::Down, ConnEvent::Up, ConnEvent::Down, ConnEvent::Up]
    );
}

#[test]
fn broker_step_forwards_messages() {
    let (s, actions) = broker_step(BrokerState::new(), RecvOutcome::Received, 1);
    assert_eq!(s, BrokerState { down: false, streak: 0 });
    assert_eq!(actions, vec![BrokerAction::ForwardMessage]);
}

#[test]
fn broker_step_reports_up_before_message_after_down() {
    let (s, actions) = broker_step(BrokerState { down: true, streak: 4 }, RecvOutcome::Received, 0);
    assert_eq!(s, BrokerState { down: false, streak: 0 });
    assert_eq!(actions, vec![BrokerAction::ReportUp, BrokerAction::ForwardMessage]);
}

#[test]
fn broker_step_debounces_down() {
    let (s1, a1) = broker_step(BrokerState::new(), RecvOutcome::TimedOut, 0);
    assert_eq!(s1, BrokerState { down: false, streak: 1 });
    assert!(a1.is_empty());
    let (s2, a2) = broker_step(s1, RecvOutcome::TimedOut, 0);
    assert_eq!(s2, BrokerState { down: true, streak: 2 });
    assert_eq!(a2, vec![BrokerAction::ReportDown]);
    let (s3, a3) = broker_step(s2, RecvOutcome::TimedOut, 0);
    assert_eq!(s3, BrokerState { down: true, streak: 3 });
    assert!(a3.is_empty());
    let (s4, a4) = broker_step(s3, RecvOutcome::TimedOut, 2);
    assert_eq!(s4, BrokerState { down: false, streak: 0 });
    assert_eq!(a4, vec![BrokerAction::ReportUp]);
}

#[test]
fn broker_step_keeps_state_on_recv_error() {
    let state = BrokerState { down: true, streak: 9 };
    let (s, actions) = broker_step(state, RecvOutcome::Failed, 0);
    assert_eq!(s, state);
    assert_eq!(actions, vec![BrokerAction::ReportErrorAndPause]);
}

#[test]
fn pipe_count_follows_own_dialer_only() {
    let addr = "tcp://127.0.0.1:14242".to_string();
    let other = "tcp://127.0.0.1:14243".to_string();
    assert_eq!(pipe_count_after(0, PipeChange::Added, Some(&addr), &addr), 1);
    assert_eq!(pipe_count_after(2, PipeChange::Removed, Some(&addr), &addr), 1);
    assert_eq!(pipe_count_after(2, PipeChange::Other, Some(&addr), &addr), 2);
    assert_eq!(pipe_count_after(2, PipeChange::Added, Some(&other), &addr), 2);
    assert_eq!(pipe_count_after(2, PipeChange::Removed, None, &addr), 2);
}

#[test]
fn pipe_count_wraps_like_an_atomic() {
    let addr = "a".to_string();
    assert_eq!(pipe_count_after(0, PipeChange::Removed, Some(&addr), &addr), usize::MAX);
    assert_eq!(pipe_count_after(usize::MAX, PipeChange::Added, Some(&addr), &addr), 0);
}
