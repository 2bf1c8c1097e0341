use media_graph::nodes::destination::{egress_settings, DestinationNode, DestinationPipelineStage};
use media_graph::nodes::mixer::{convert_pad_value, MixerNode, PadType, PadValue};
use media_graph::nodes::source::{SourceNode, SourcePipelineStage};
use media_graph::protocol::{ControlMode, ControlPoint, DestinationFamily, NodeInfo, Setting, State, Value};
use media_graph::settings::get_setting;

fn now_ms() -> i64 {
    std::time::SystemTime::now().duration_since(std::time::UNIX_EPOCH).unwrap().as_millis() as i64
}

fn setting(key: &str, value: Value) -> Setting {
    Setting { key: key.to_string(), value }
}

fn lookup(settings: &Vec<Setting>, key: &str) -> Option<Value> {
    get_setting(settings, &key.to_string())
}

fn slot<'a>(node: &'a MixerNode, id: &str) -> Option<&'a media_graph::nodes::mixer::MixerSlot> {
    node.slots.iter().find(|s| s.slot_id == id)
}

fn series_len(series: &Vec<media_graph::protocol::Series>, property: &str) -> Option<usize> {
    series.iter().find(|s| s.property == property).map(|s| s.points.len())
}

#[test]
fn destination_schedule_without_gstreamer_init_keeps_state_machine_behavior() {
    let mut node = DestinationNode::new("destination-test".to_string(), DestinationFamily::LocalPlayback, false, true);
    node.connect_input(&"link-video".to_string(), false, true).unwrap();
    let now = now_ms();
    assert!(node.schedule(None, None, now).is_ok());
    assert_eq!(node.timing.state, State::Started);

    let cue = now + 15_000;
    assert!(node.schedule(Some(cue), None, now).is_ok());
    assert_eq!(node.timing.state, State::Initial);
}

#[test]
fn advance_schedule_starts_at_cue_time() {
    let mut node = DestinationNode::new("destination-test".to_string(), DestinationFamily::LocalPlayback, false, true);
    node.connect_input(&"link-video".to_string(), false, true).unwrap();
    let now = now_ms();
    let cue = now + 30_000;
    assert!(node.schedule(Some(cue), None, now).is_ok());
    assert_eq!(node.timing.state, State::Initial);

    node.refresh(cue + 1_000);
    assert_eq!(node.timing.state, State::Started);
    assert_eq!(node.pipeline.as_ref().map(|profile| profile.stage), Some(DestinationPipelineStage::Playing));
}

#[test]
fn schedule_requires_connected_enabled_slots() {
    let mut node = DestinationNode::new("destination-test".to_string(), DestinationFamily::LocalPlayback, true, true);
    let err = node.schedule(None, None, now_ms()).unwrap_err();
    assert!(err.contains("audio slot connected"));

    node.connect_input(&"audio-link".to_string(), true, false).unwrap();
    let err = node.schedule(None, None, now_ms()).unwrap_err();
    assert!(err.contains("video slot connected"));
}

#[test]
fn connect_input_rejects_duplicate_media_slots() {
    let mut node = DestinationNode::new("destination-test".to_string(), DestinationFamily::LocalPlayback, true, true);
    node.connect_input(&"slot-1".to_string(), true, true).unwrap();
    let err = node.connect_input(&"slot-2".to_string(), true, false).unwrap_err();
    assert!(err.contains("already has an audio input slot"));
    let err = node.connect_input(&"slot-3".to_string(), false, true).unwrap_err();
    assert!(err.contains("already has a video input slot"));
}

#[test]
fn disconnect_input_clears_only_matching_slot() {
    let mut node = DestinationNode::new("destination-test".to_string(), DestinationFamily::LocalPlayback, true, true);
    node.connect_input(&"slot-a".to_string(), true, false).unwrap();
    node.connect_input(&"slot-v".to_string(), false, true).unwrap();

    node.disconnect_input(&"slot-a".to_string());
    assert!(node.audio_slot_id.is_none());
    assert_eq!(node.video_slot_id.as_deref(), Some("slot-v"));

    node.disconnect_input(&"slot-v".to_string());
    assert!(node.video_slot_id.is_none());
}

#[test]
fn as_info_reflects_current_slots_and_state() {
    let mut node =
        DestinationNode::new("destination-test".to_string(), DestinationFamily::Udp { host: "127.0.0.1".to_string() }, true, false);
    node.connect_input(&"slot-a".to_string(), true, false).unwrap();
    node.timing.state = State::Started;
    match node.as_info() {
        NodeInfo::Destination(dest) => {
            assert_eq!(dest.audio_slot_id.as_deref(), Some("slot-a"));
            assert!(dest.video_slot_id.is_none());
            assert_eq!(dest.state, State::Started);
        }
        other => panic!("expected destination info, got {other:?}"),
    }
}

#[test]
fn destination_profile_drops_disabled_media() {
    let mut node = DestinationNode::new(
        "d".to_string(),
        DestinationFamily::Rtmp { uri: "rtmp://localhost/live".to_string() },
        true,
        false,
    );
    node.connect_input(&"a".to_string(), true, false).unwrap();
    node.schedule(None, None, now_ms()).unwrap();
    let elements = node.pipeline.unwrap().elements;
    assert_eq!(
        elements,
        vec!["flvmux", "queue", "rtmp2sink", "timecodestamper", "timeoverlay", "audioconvert", "audioresample", "avenc_aac"]
    );
}

#[test]
fn mixer_schedule_without_gstreamer_init_keeps_state_machine_behavior() {
    let mut node = MixerNode::new("mixer-test".to_string(), None, false, true).unwrap();
    node.connect_input_slot(&"slot-video".to_string(), false, true, None).unwrap();
    let now = now_ms();
    node.schedule(None, None, now);
    assert_eq!(node.timing.state, State::Started);

    node.schedule(Some(now + 20_000), None, now);
    assert_eq!(node.timing.state, State::Initial);
}

#[test]
fn new_rejects_invalid_setting_types() {
    let config = vec![setting("width", Value::Text("wide".to_string()))];
    let err = MixerNode::new("mixer-test".to_string(), Some(config), true, true).unwrap_err();
    assert!(err.contains("expects a numeric value"));
}

#[test]
fn connect_input_slot_applies_defaults_and_custom_values() {
    let mut node = MixerNode::new("mixer-test".to_string(), None, true, true).unwrap();
    let config = vec![setting("video::x", Value::Number(20_000_000)), setting("audio::volume", Value::Number(400_000))];
    node.connect_input_slot(&"slot-1".to_string(), true, true, Some(config)).unwrap();

    let s = slot(&node, "slot-1").unwrap();
    assert_eq!(s.volume, 400_000);
    assert!(lookup(&s.settings, "video::x").unwrap() == Value::Number(20_000_000));
    assert!(lookup(&s.settings, "audio::volume").unwrap() == Value::Number(400_000));
    assert!(lookup(&s.settings, "video::width").unwrap() == Value::Number(1_920_000_000));
    assert!(lookup(&s.settings, "video::height").unwrap() == Value::Number(1_080_000_000));
}

#[test]
fn connect_input_slot_validates_slot_config_keys_and_media() {
    let mut node = MixerNode::new("mixer-test".to_string(), None, true, true).unwrap();

    let bad_format = vec![setting("x", Value::Number(10_000_000))];
    let err = node.connect_input_slot(&"slot-1".to_string(), true, true, Some(bad_format)).unwrap_err();
    assert!(err.contains("must be in form media-type::property-name"));

    let bad_media = vec![setting("video::x", Value::Number(10_000_000))];
    let err = node.connect_input_slot(&"slot-2".to_string(), true, false, Some(bad_media)).unwrap_err();
    assert!(err.contains("video is not enabled"));

    let bad_value = vec![setting("audio::volume", Value::Text("loud".to_string()))];
    let err = node.connect_input_slot(&"slot-3".to_string(), true, false, Some(bad_value)).unwrap_err();
    assert!(err.contains("expects a numeric value"));
    assert!(node.slots.is_empty());
}

#[test]
fn add_and_remove_control_point_updates_mixer_setting() {
    let mut node = MixerNode::new("mixer-test".to_string(), None, true, true).unwrap();
    let now = now_ms();
    let cp = ControlPoint { id: "cp-width".to_string(), time: now - 1_000, value: Value::Number(1_280_000_000), mode: ControlMode::Step };
    node.add_control_point(&"width".to_string(), cp, now).unwrap();
    assert!(lookup(&node.settings, "width").unwrap() == Value::Number(1_280_000_000));
    assert_eq!(series_len(&node.control_points, "width"), Some(1));

    node.remove_control_point(&"cp-width".to_string(), &"width".to_string(), now);
    assert_eq!(series_len(&node.control_points, "width"), Some(0));
}

#[test]
fn add_control_point_rejects_unknown_property() {
    let mut node = MixerNode::new("mixer-test".to_string(), None, true, true).unwrap();
    let cp = ControlPoint { id: "cp-unknown".to_string(), time: now_ms(), value: Value::Number(1_000_000), mode: ControlMode::Step };
    let err = node.add_control_point(&"not-a-setting".to_string(), cp, now_ms()).unwrap_err();
    assert!(err.contains("has no setting"));
}

#[test]
fn slot_control_points_update_slot_volume_and_can_be_removed() {
    let mut node = MixerNode::new("mixer-test".to_string(), None, true, false).unwrap();
    node.connect_input_slot(&"slot-1".to_string(), true, false, None).unwrap();
    let now = now_ms();
    let cp = ControlPoint { id: "cp-vol".to_string(), time: now - 1_000, value: Value::Number(200_000), mode: ControlMode::Step };
    node.add_slot_control_point(&"slot-1".to_string(), &"audio::volume".to_string(), cp, now).unwrap();

    let s = slot(&node, "slot-1").unwrap();
    assert_eq!(s.volume, 200_000);
    assert_eq!(series_len(&s.control_points, "audio::volume"), Some(1));

    node.remove_slot_control_point(&"cp-vol".to_string(), &"slot-1".to_string(), &"audio::volume".to_string(), now);
    let s = slot(&node, "slot-1").unwrap();
    assert_eq!(series_len(&s.control_points, "audio::volume"), Some(0));
}

#[test]
fn output_consumer_bookkeeping_tracks_links() {
    let mut node = MixerNode::new("mixer-test".to_string(), None, true, true).unwrap();
    node.connect_output_consumer(&"out-av".to_string(), true, true);
    node.connect_output_consumer(&"out-a".to_string(), true, false);
    assert!(node.consumers.audio.contains(&"out-av".to_string()));
    assert!(node.consumers.audio.contains(&"out-a".to_string()));
    assert!(node.consumers.video.contains(&"out-av".to_string()));

    node.disconnect_output_consumer(&"out-av".to_string());
    assert!(!node.consumers.audio.contains(&"out-av".to_string()));
    assert!(!node.consumers.video.contains(&"out-av".to_string()));
}

#[test]
fn disconnect_input_slot_removes_slot_models() {
    let mut node = MixerNode::new("mixer-test".to_string(), None, true, true).unwrap();
    node.connect_input_slot(&"slot-1".to_string(), true, true, None).unwrap();
    assert!(slot(&node, "slot-1").is_some());
    node.disconnect_input_slot(&"slot-1".to_string());
    assert!(slot(&node, "slot-1").is_none());
}

#[test]
fn as_info_contains_mixer_slots_and_control_maps() {
    let mut node = MixerNode::new("mixer-test".to_string(), None, true, true).unwrap();
    node.connect_input_slot(&"slot-1".to_string(), true, true, None).unwrap();
    node.connect_output_consumer(&"out-1".to_string(), true, true);
    node.timing.state = State::Started;
    match node.as_info() {
        NodeInfo::Mixer(mixer) => {
            assert_eq!(mixer.state, State::Started);
            assert!(mixer.slots.iter().any(|s| s.slot_id == "slot-1"));
            assert!(mixer.slot_settings.iter().any(|s| s.slot_id == "slot-1"));
            assert!(mixer.audio_consumer_slot_ids.unwrap_or_default().contains(&"out-1".to_string()));
        }
        other => panic!("expected mixer info, got {other:?}"),
    }
}

#[test]
fn mixer_profile_reads_settings() {
    let config = vec![
        setting("width", Value::Number(1_280_000_000)),
        setting("height", Value::Number(720_000_000)),
        setting("sample-rate", Value::Number(44_100_000_000)),
    ];
    let mut node = MixerNode::new("m".to_string(), Some(config), true, true).unwrap();
    node.schedule(None, None, now_ms());
    assert_eq!(node.pipeline.width, 1280);
    assert_eq!(node.pipeline.height, 720);
    assert_eq!(node.pipeline.sample_rate, 44_100);
    assert_eq!(node.pipeline.fallback_timeout_ms, 500);
}

#[test]
fn source_schedule_without_gstreamer_init_keeps_state_machine_behavior() {
    let mut node = SourceNode::new("source-test".to_string(), "https://example.com/stream.mp4".to_string(), true, true);
    let now = now_ms();
    node.schedule(None, None, now);
    assert_eq!(node.timing.state, State::Started);

    node.schedule(Some(now + 30_000), None, now);
    assert_eq!(node.timing.state, State::Initial);
}

#[test]
fn advance_schedule_transitions_to_stopped_after_end_time() {
    let mut node = SourceNode::new("source-test".to_string(), "https://example.com/stream.mp4".to_string(), true, true);
    let now = now_ms();
    node.timing.cue_time = Some(now - 20_000);
    node.timing.end_time = Some(now - 1_000);
    node.timing.state = State::Initial;
    node.timing.scheduled = true;
    node.refresh(now);
    assert_eq!(node.timing.state, State::Stopped);
    assert_eq!(node.pipeline.stage, SourcePipelineStage::Idle);
}

#[test]
fn source_prerolls_inside_the_lead_window() {
    let mut node = SourceNode::new("s".to_string(), "file:///a.mp4".to_string(), true, true);
    let cue = 1_000_000;
    node.schedule(Some(cue), None, cue - 10_001);
    assert_eq!(node.timing.state, State::Initial);
    node.refresh(cue - 10_000);
    assert_eq!(node.timing.state, State::Starting);
    assert_eq!(node.pipeline.stage, SourcePipelineStage::Prerolling);
    node.refresh(cue - 1);
    assert_eq!(node.timing.state, State::Starting);
    node.refresh(cue);
    assert_eq!(node.timing.state, State::Started);
    assert_eq!(node.pipeline.stage, SourcePipelineStage::Playing);
}

#[test]
fn pad_values_are_narrowed_and_checked() {
    let p = "xpos".to_string();
    assert!(matches!(convert_pad_value(PadType::I32, &p, &Value::Number(20_500_000)), Ok(PadValue::I32(20))));
    assert!(matches!(convert_pad_value(PadType::I32, &p, &Value::Number(-3_000_000)), Ok(PadValue::I32(-3))));
    let err = convert_pad_value(PadType::I32, &p, &Value::Number(3_000_000_000_000_000)).unwrap_err();
    assert_eq!(err, "xpos is out of i32 range");
    let err = convert_pad_value(PadType::U32, &p, &Value::Number(-1)).unwrap_err();
    assert_eq!(err, "xpos expects an unsigned numeric value");
    let err = convert_pad_value(PadType::U32, &p, &Value::Number(5_000_000_000_000_000)).unwrap_err();
    assert_eq!(err, "xpos is out of u32 range");
    assert!(matches!(convert_pad_value(PadType::U64, &p, &Value::Number(7_000_000)), Ok(PadValue::U64(7))));
    assert!(matches!(convert_pad_value(PadType::I64, &p, &Value::Number(-7_900_000)), Ok(PadValue::I64(-7))));
    assert!(matches!(convert_pad_value(PadType::Bool, &p, &Value::Bool(true)), Ok(PadValue::Bool(true))));
    assert_eq!(convert_pad_value(PadType::Bool, &p, &Value::Null).unwrap_err(), "xpos expects a boolean value");
    match convert_pad_value(PadType::Str, &p, &Value::Text("keep".to_string())) {
        Ok(PadValue::Str(s)) => assert_eq!(s, "keep"),
        other => panic!("expected a string, got {other:?}"),
    }
    assert_eq!(convert_pad_value(PadType::I64, &p, &Value::Text("a".to_string())).unwrap_err(), "xpos expects a numeric value");
    assert!(convert_pad_value(PadType::Other, &p, &Value::Null).unwrap_err().contains("Unsupported value type"));
}

#[test]
fn egress_settings_follow_the_family() {
    let rtmp = egress_settings(&DestinationFamily::Rtmp { uri: "rtmp://localhost/live".to_string() });
    assert_eq!(rtmp.location.as_deref(), Some("rtmp://localhost/live"));
    let udp = egress_settings(&DestinationFamily::Udp { host: "127.0.0.1".to_string() });
    assert_eq!(udp.host.as_deref(), Some("127.0.0.1"));
    assert_eq!(udp.port, Some(5005));
    let split = egress_settings(&DestinationFamily::LocalFile {
        base_name: "capture".to_string(),
        max_size_time: Some(5000),
    });
    assert_eq!(split.location.as_deref(), Some("capture%05d.mp4"));
    assert_eq!(split.max_size_time_ns, Some(5_000_000_000));
    assert!(split.robust_muxing);
    let single = egress_settings(&DestinationFamily::LocalFile {
        base_name: "capture".to_string(),
        max_size_time: None,
    });
    assert_eq!(single.location.as_deref(), Some("capture.mp4"));
    assert_eq!(single.max_size_time_ns, None);
}
