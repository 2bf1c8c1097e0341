use media_graph::media_bridge::StreamBridge;
use media_graph::protocol::State;
use media_graph::runtime::{shutdown_graph_runtime, start_graph_runtime, GraphRuntime};
use media_graph::schedule::{advance_schedule, schedule_transition_due};

#[test]
fn states_move_forward_under_a_virtual_clock() {
    let cue = 100_000;
    let end = 200_000;
    let mut state = State::Initial;
    let mut seen = vec![state];
    for now in (80_000..=210_000).step_by(5_000) {
        let next = advance_schedule(state, Some(cue), Some(end), now, true);
        if next != state {
            seen.push(next);
        }
        state = next;
    }
    assert_eq!(seen, vec![State::Initial, State::Starting, State::Started, State::Stopped]);
}

#[test]
fn preroll_lead_is_exactly_ten_seconds() {
    let cue = 50_000;
    assert_eq!(advance_schedule(State::Initial, Some(cue), None, cue - 10_001, true), State::Initial);
    assert_eq!(advance_schedule(State::Initial, Some(cue), None, cue - 10_000, true), State::Starting);
    assert_eq!(advance_schedule(State::Initial, Some(cue), None, cue, true), State::Started);
    assert_eq!(advance_schedule(State::Initial, Some(cue), None, cue - 1, false), State::Initial);
    assert_eq!(advance_schedule(State::Initial, Some(cue), None, cue, false), State::Started);
    assert_eq!(schedule_transition_due(State::Stopped, None, None, 0, true), None);
}

#[test]
fn add_remove_and_clear_manage_consumer_lifecycle() {
    let mut bridge = StreamBridge::new();
    assert!(!bridge.has_consumers());
    assert!(bridge.attach_sink(&"bridge-sink-1".to_string()));
    bridge.add_consumer(&"consumer-1".to_string());
    bridge.add_consumer(&"consumer-2".to_string());
    assert!(bridge.has_consumers());
    bridge.remove_consumer(&"consumer-1".to_string());
    assert!(bridge.has_consumers());
    assert_eq!(bridge.clear(), Some("bridge-sink-1".to_string()));
    assert!(!bridge.has_consumers());
    assert!(bridge.last_caps.is_none());
}

#[test]
fn add_consumer_applies_cached_caps_to_new_consumer() {
    let mut bridge = StreamBridge::new();
    bridge.add_consumer(&"consumer-1".to_string());
    let caps = "video/x-raw,format=RGB,width=1280,height=720".to_string();
    bridge.on_sample(Some(caps.clone()));
    assert_eq!(bridge.add_consumer(&"bridge-consumer-2".to_string()), Some(caps));
}

#[test]
fn attach_sink_replaces_old_sink_and_resets_cached_caps() {
    let mut bridge = StreamBridge::new();
    bridge.add_consumer(&"c".to_string());
    assert!(bridge.attach_sink(&"bridge-sink-2".to_string()));
    bridge.on_sample(Some("audio/x-raw".to_string()));
    assert!(bridge.last_caps.is_some());
    assert!(!bridge.attach_sink(&"bridge-sink-2".to_string()));
    assert!(bridge.last_caps.is_some());
    assert!(bridge.attach_sink(&"bridge-sink-3".to_string()));
    assert!(bridge.last_caps.is_none());
}

#[test]
fn every_sample_reaches_each_consumer_once() {
    let mut bridge = StreamBridge::new();
    assert!(bridge.on_sample(Some("a".to_string())).targets.is_empty());
    bridge.add_consumer(&"x".to_string());
    bridge.add_consumer(&"y".to_string());
    bridge.add_consumer(&"x".to_string());
    let first = bridge.on_sample(Some("a".to_string()));
    assert_eq!(first.targets, vec!["x".to_string(), "y".to_string()]);
    assert_eq!(first.caps_update, Some("a".to_string()));
    let second = bridge.on_sample(Some("a".to_string()));
    assert_eq!(second.targets.len(), 2);
    assert_eq!(second.caps_update, None);
    bridge.evict(&vec!["x".to_string()]);
    assert_eq!(bridge.on_sample(Some("b".to_string())).targets, vec!["y".to_string()]);
}

#[test]
fn runtime_start_is_idempotent_and_shutdown_clears() {
    let mut rt = GraphRuntime::new();
    let plan = start_graph_runtime(&mut rt, 0, Some(" 127.0.0.1:8080 ".to_string()));
    assert!(plan.spawn_ticker);
    assert_eq!(plan.serve_on, Some("127.0.0.1:8080".to_string()));
    let again = start_graph_runtime(&mut rt, 0, Some("127.0.0.1:8080".to_string()));
    assert!(!again.spawn_ticker);
    assert_eq!(again.serve_on, None);
    let stop = shutdown_graph_runtime(&mut rt);
    assert!(stop.join_ticker && stop.join_server);
    assert!(!rt.manager.started);
}
