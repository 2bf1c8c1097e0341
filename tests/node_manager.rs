use media_graph::node_manager::{NodeManager, NodeRecord};
use media_graph::protocol::{Command, CommandResult, ControlMode, ControlPoint, DestinationFamily, NodeInfo, Setting, State, Value};

fn now_ms() -> i64 {
    std::time::SystemTime::now().duration_since(std::time::UNIX_EPOCH).unwrap().as_millis() as i64
}

fn run(manager: &mut NodeManager, command: Command) -> CommandResult {
    manager.dispatch(command, now_ms())
}

fn started_manager() -> NodeManager {
    let mut manager = NodeManager::new();
    manager.start(now_ms());
    manager
}

fn expect_error(result: CommandResult, needle: &str) {
    match result {
        CommandResult::Error(err) => assert!(err.contains(needle), "expected error containing `{needle}`, got `{err}`"),
        other => panic!("expected error containing `{needle}`, got {other:?}"),
    }
}

fn source(id: &str, audio: bool, video: bool) -> Command {
    Command::CreateSource { id: id.to_string(), uri: "https://example.com/video.mp4".to_string(), audio, video }
}

fn destination(id: &str, audio: bool, video: bool) -> Command {
    Command::CreateDestination { id: id.to_string(), family: DestinationFamily::LocalPlayback, audio, video }
}

fn connect(link: &str, src: &str, sink: &str, audio: bool, video: bool) -> Command {
    Command::Connect { link_id: link.to_string(), src_id: src.to_string(), sink_id: sink.to_string(), audio, video, config: None }
}

#[test]
fn create_connect_and_get_info() {
    let mut manager = started_manager();
    assert!(matches!(run(&mut manager, source("source-1", true, true)), CommandResult::Success));
    assert!(matches!(run(&mut manager, destination("dest-1", true, true)), CommandResult::Success));
    assert!(matches!(run(&mut manager, connect("link-1", "source-1", "dest-1", true, true)), CommandResult::Success));
    match run(&mut manager, Command::GetInfo { id: None }) {
        CommandResult::Info(info) => {
            assert!(info.nodes.iter().any(|n| n.id == "source-1"));
            assert!(info.nodes.iter().any(|n| n.id == "dest-1"));
            for entry in &info.nodes {
                let state = match &entry.info {
                    NodeInfo::Source(s) => s.state,
                    NodeInfo::Destination(d) => d.state,
                    NodeInfo::Mixer(m) => m.state,
                };
                assert_eq!(state, State::Initial);
            }
        }
        other => panic!("Expected info result, got {other:?}"),
    }
}

#[test]
fn create_video_generator_maps_to_compatible_source_info() {
    let mut manager = started_manager();
    assert!(matches!(run(&mut manager, Command::CreateVideoGenerator { id: "gen-1".to_string() }), CommandResult::Success));
    match run(&mut manager, Command::GetInfo { id: Some("gen-1".to_string()) }) {
        CommandResult::Info(info) => match info.nodes.iter().find(|n| n.id == "gen-1").map(|n| &n.info) {
            Some(NodeInfo::Source(source)) => assert_eq!(source.uri, "videogenerator://gen-1"),
            other => panic!("expected compatible source info, got {other:?}"),
        },
        other => panic!("expected info result, got {other:?}"),
    }
}

#[test]
fn create_commands_validate_flags_ids_and_config() {
    let mut manager = started_manager();
    expect_error(run(&mut manager, source("source-disabled", false, false)), "must have either audio or video enabled");
    expect_error(run(&mut manager, destination("dest-disabled", false, false)), "must have either audio or video enabled");
    expect_error(
        run(&mut manager, Command::CreateMixer { id: "mixer-disabled".to_string(), config: None, audio: false, video: false }),
        "must have either audio or video enabled",
    );
    assert!(matches!(run(&mut manager, source("dup-id", true, true)), CommandResult::Success));
    expect_error(run(&mut manager, destination("dup-id", true, true)), "already exists with id dup-id");
    expect_error(
        run(&mut manager, Command::CreateMixer {
            id: "mixer-invalid-config".to_string(),
            config: Some(vec![Setting { key: "bad".to_string(), value: Value::Number(1_000_000) }]),
            audio: true,
            video: true,
        }),
        "No setting with name bad",
    );
}

#[test]
fn connect_disconnect_validate_capabilities_and_link_ids() {
    let mut manager = started_manager();
    assert!(matches!(run(&mut manager, source("source-audio", true, false)), CommandResult::Success));
    assert!(matches!(run(&mut manager, destination("dest-video", false, true)), CommandResult::Success));
    assert!(matches!(run(&mut manager, destination("dest-audio", true, false)), CommandResult::Success));

    expect_error(run(&mut manager, connect("bad-link-media", "source-audio", "dest-video", true, false)), "capabilities do not match");
    expect_error(run(&mut manager, connect("missing-src", "missing", "dest-audio", true, false)), "No producer with id missing");
    expect_error(run(&mut manager, connect("missing-sink", "source-audio", "missing", true, false)), "No consumer with id missing");

    let link_config = vec![Setting { key: "audio::volume".to_string(), value: Value::Number(500_000) }];
    assert!(matches!(
        run(&mut manager, Command::Connect {
            link_id: "link-1".to_string(),
            src_id: "source-audio".to_string(),
            sink_id: "dest-audio".to_string(),
            audio: true,
            video: false,
            config: Some(link_config),
        }),
        CommandResult::Success
    ));
    let stored = manager.links.iter().find(|l| l.link_id == "link-1").and_then(|l| l.config.clone()).unwrap();
    assert_eq!(stored[0].key, "audio::volume");
    assert!(stored[0].value == Value::Number(500_000));

    expect_error(run(&mut manager, connect("link-1", "source-audio", "dest-audio", true, false)), "already exists with id link-1");
    assert!(matches!(run(&mut manager, Command::Disconnect { link_id: "link-1".to_string() }), CommandResult::Success));
    expect_error(run(&mut manager, Command::Disconnect { link_id: "link-1".to_string() }), "No link with id link-1");
}

#[test]
fn start_reschedule_and_remove_commands_work_for_nodes() {
    let mut manager = started_manager();
    assert!(matches!(run(&mut manager, source("source-1", true, true)), CommandResult::Success));
    assert!(matches!(
        run(&mut manager, Command::Start { id: "source-1".to_string(), cue_time: None, end_time: None }),
        CommandResult::Success
    ));
    let cue = now_ms() + 20_000;
    assert!(matches!(
        run(&mut manager, Command::Reschedule { id: "source-1".to_string(), cue_time: Some(cue), end_time: Some(cue + 5_000) }),
        CommandResult::Success
    ));
    assert!(matches!(run(&mut manager, Command::Remove { id: "source-1".to_string() }), CommandResult::Success));
    expect_error(run(&mut manager, Command::Remove { id: "source-1".to_string() }), "No node with id source-1");
}

#[test]
fn get_info_reports_missing_node_for_specific_id() {
    let mut manager = started_manager();
    expect_error(run(&mut manager, Command::GetInfo { id: Some("missing".to_string()) }), "No node with id missing");
}

#[test]
fn add_and_remove_control_point_supports_mixer_and_mixer_slots() {
    let mut manager = started_manager();
    assert!(matches!(run(&mut manager, source("source-1", true, false)), CommandResult::Success));
    assert!(matches!(
        run(&mut manager, Command::CreateMixer { id: "mixer-1".to_string(), config: None, audio: true, video: false }),
        CommandResult::Success
    ));
    assert!(matches!(run(&mut manager, connect("slot-1", "source-1", "mixer-1", true, false)), CommandResult::Success));
    let mixer_cp = ControlPoint { id: "cp-width".to_string(), time: now_ms(), value: Value::Number(1_280_000_000), mode: ControlMode::Step };
    assert!(matches!(
        run(&mut manager, Command::AddControlPoint { controllee_id: "mixer-1".to_string(), property: "width".to_string(), control_point: mixer_cp }),
        CommandResult::Success
    ));
    assert!(matches!(
        run(&mut manager, Command::RemoveControlPoint {
            id: "cp-width".to_string(),
            controllee_id: "mixer-1".to_string(),
            property: "width".to_string()
        }),
        CommandResult::Success
    ));
    let slot_cp = ControlPoint { id: "cp-slot".to_string(), time: now_ms(), value: Value::Number(500_000), mode: ControlMode::Step };
    assert!(matches!(
        run(&mut manager, Command::AddControlPoint {
            controllee_id: "slot-1".to_string(),
            property: "audio::volume".to_string(),
            control_point: slot_cp
        }),
        CommandResult::Success
    ));
    assert!(matches!(
        run(&mut manager, Command::RemoveControlPoint {
            id: "cp-slot".to_string(),
            controllee_id: "slot-1".to_string(),
            property: "audio::volume".to_string()
        }),
        CommandResult::Success
    ));
}

#[test]
fn control_point_commands_return_errors_for_invalid_targets() {
    let mut manager = started_manager();
    assert!(matches!(run(&mut manager, source("source-1", true, false)), CommandResult::Success));
    assert!(matches!(run(&mut manager, destination("dest-1", true, false)), CommandResult::Success));
    assert!(matches!(run(&mut manager, connect("dest-link", "source-1", "dest-1", true, false)), CommandResult::Success));
    let cp = || ControlPoint { id: "cp-1".to_string(), time: now_ms(), value: Value::Number(1_000_000), mode: ControlMode::Step };
    expect_error(
        run(&mut manager, Command::AddControlPoint { controllee_id: "source-1".to_string(), property: "width".to_string(), control_point: cp() }),
        "supported only for mixers",
    );
    expect_error(
        run(&mut manager, Command::AddControlPoint {
            controllee_id: "dest-link".to_string(),
            property: "audio::volume".to_string(),
            control_point: cp()
        }),
        "only supported for mixer links",
    );
    expect_error(
        run(&mut manager, Command::RemoveControlPoint {
            id: "cp-1".to_string(),
            controllee_id: "missing".to_string(),
            property: "width".to_string()
        }),
        "No node or slot with id missing",
    );
}

#[test]
fn shutdown_clears_runtime_state() {
    let mut manager = started_manager();
    assert!(matches!(run(&mut manager, source("source-1", true, true)), CommandResult::Success));
    assert!(matches!(run(&mut manager, destination("dest-1", true, true)), CommandResult::Success));
    assert!(matches!(run(&mut manager, connect("link-1", "source-1", "dest-1", true, true)), CommandResult::Success));
    assert!(manager.started);
    assert_eq!(manager.nodes.len(), 2);
    assert_eq!(manager.links.len(), 1);
    manager.shutdown();
    assert!(!manager.started);
    assert!(manager.nodes.is_empty());
    assert!(manager.links.is_empty());
    assert!(manager.media_bridges.is_empty());
}

#[test]
fn mixer_slot_control_point_sets_volume() {
    let mut manager = started_manager();
    let config = vec![
        Setting { key: "width".to_string(), value: Value::Number(1_280_000_000) },
        Setting { key: "height".to_string(), value: Value::Number(720_000_000) },
        Setting { key: "sample-rate".to_string(), value: Value::Number(44_100_000_000) },
    ];
    assert!(matches!(
        run(&mut manager, Command::CreateMixer { id: "m".to_string(), config: Some(config), audio: true, video: true }),
        CommandResult::Success
    ));
    assert!(matches!(run(&mut manager, source("s", true, true)), CommandResult::Success));
    assert!(matches!(run(&mut manager, connect("slot1", "s", "m", true, true)), CommandResult::Success));
    let cp = ControlPoint { id: "cp1".to_string(), time: now_ms() - 1_000, value: Value::Number(200_000), mode: ControlMode::Step };
    assert!(matches!(
        run(&mut manager, Command::AddControlPoint { controllee_id: "slot1".to_string(), property: "audio::volume".to_string(), control_point: cp }),
        CommandResult::Success
    ));
    match run(&mut manager, Command::GetInfo { id: Some("m".to_string()) }) {
        CommandResult::Info(info) => match &info.nodes[0].info {
            NodeInfo::Mixer(mixer) => {
                let slot = mixer.slots.iter().find(|s| s.slot_id == "slot1").unwrap();
                assert_eq!(slot.info.volume, 200_000);
            }
            other => panic!("expected mixer info, got {other:?}"),
        },
        other => panic!("expected info, got {other:?}"),
    }
}

#[test]
fn unknown_mixer_setting_is_rejected() {
    let mut manager = started_manager();
    let config = vec![Setting { key: "bad".to_string(), value: Value::Number(1_000_000) }];
    expect_error(
        run(&mut manager, Command::CreateMixer { id: "m".to_string(), config: Some(config), audio: true, video: true }),
        "No setting with name bad",
    );
}

#[test]
fn destination_start_requires_slots() {
    let mut manager = started_manager();
    assert!(matches!(run(&mut manager, destination("d", true, true)), CommandResult::Success));
    expect_error(run(&mut manager, Command::Start { id: "d".to_string(), cue_time: None, end_time: None }), "audio slot connected");
}

#[test]
fn capability_mismatch_leaves_graph_unchanged() {
    let mut manager = started_manager();
    assert!(matches!(run(&mut manager, source("a", true, false)), CommandResult::Success));
    assert!(matches!(run(&mut manager, destination("b", false, true)), CommandResult::Success));
    expect_error(run(&mut manager, connect("L", "a", "b", true, false)), "capabilities do not match");
    assert_eq!(manager.nodes.len(), 2);
    assert!(manager.links.is_empty());
}

#[test]
fn remove_cascades_to_links_and_bridges() {
    let mut manager = started_manager();
    assert!(matches!(run(&mut manager, source("s", true, true)), CommandResult::Success));
    assert!(matches!(run(&mut manager, destination("d", true, true)), CommandResult::Success));
    assert!(matches!(run(&mut manager, connect("l", "s", "d", true, true)), CommandResult::Success));
    assert!(matches!(run(&mut manager, Command::Start { id: "s".to_string(), cue_time: None, end_time: None }), CommandResult::Success));
    assert!(matches!(run(&mut manager, Command::Start { id: "d".to_string(), cue_time: None, end_time: None }), CommandResult::Success));
    assert!(manager.media_bridges.iter().any(|b| b.src_id == "s"));
    assert!(matches!(run(&mut manager, Command::Remove { id: "s".to_string() }), CommandResult::Success));
    assert!(manager.links.is_empty());
    assert!(manager.media_bridges.iter().all(|b| b.src_id != "s"));
}

#[test]
fn duplicate_ids_never_coexist() {
    let mut manager = started_manager();
    assert!(matches!(run(&mut manager, source("x", true, true)), CommandResult::Success));
    expect_error(run(&mut manager, Command::CreateVideoGenerator { id: "x".to_string() }), "already exists with id x");
    assert_eq!(manager.nodes.len(), 1);
}

#[test]
fn destination_slot_taken_is_refused_through_connect() {
    let mut manager = started_manager();
    assert!(matches!(run(&mut manager, source("s1", true, true)), CommandResult::Success));
    assert!(matches!(run(&mut manager, source("s2", true, true)), CommandResult::Success));
    assert!(matches!(run(&mut manager, destination("d", true, true)), CommandResult::Success));
    assert!(matches!(run(&mut manager, connect("l1", "s1", "d", true, false)), CommandResult::Success));
    expect_error(run(&mut manager, connect("l2", "s2", "d", true, false)), "Destination d already has an audio input slot");
    assert_eq!(manager.links.len(), 1);
}

#[test]
fn mixer_node_control_point_rejects_wrong_type() {
    let mut manager = started_manager();
    assert!(matches!(
        run(&mut manager, Command::CreateMixer { id: "m".to_string(), config: None, audio: true, video: true }),
        CommandResult::Success
    ));
    let cp = ControlPoint { id: "c".to_string(), time: 0, value: Value::Text("wide".to_string()), mode: ControlMode::Step };
    expect_error(
        run(&mut manager, Command::AddControlPoint { controllee_id: "m".to_string(), property: "width".to_string(), control_point: cp }),
        "Setting `width` expects a numeric value",
    );
}

#[test]
fn removing_a_producer_frees_the_consumer_slots() {
    let mut manager = started_manager();
    assert!(matches!(run(&mut manager, source("s", true, true)), CommandResult::Success));
    assert!(matches!(run(&mut manager, destination("d", true, true)), CommandResult::Success));
    assert!(matches!(run(&mut manager, connect("l", "s", "d", true, true)), CommandResult::Success));
    assert!(matches!(run(&mut manager, Command::Remove { id: "s".to_string() }), CommandResult::Success));
    match &manager.nodes[0] {
        NodeRecord::Destination(d) => {
            assert!(d.audio_slot_id.is_none());
            assert!(d.video_slot_id.is_none());
        }
        other => panic!("expected the destination, got {other:?}"),
    }
}
