use media_graph::messages::{CommandMessage, ConsumerMessage, MessageResult, NodeStatusMessage, ScheduleMessage, StartMessage};
use media_graph::protocol::{
    Command, CommandResult, ControlMode, ControlPoint, MixerInfo, MixerSlotInfo, NodeInfo, Setting, SlotEntry, State, Value,
};

fn sample_control_point() -> ControlPoint {
    ControlPoint { id: "cp-1".to_string(), time: 1_000, value: Value::Number(750_000), mode: ControlMode::Step }
}

#[test]
fn start_and_schedule_messages_store_times() {
    let cue = Some(5_000_i64);
    let end = cue.map(|t| t + 10_000);
    let start = StartMessage { cue_time: cue, end_time: end };
    let schedule = ScheduleMessage { cue_time: cue, end_time: end };
    assert_eq!(start.cue_time, schedule.cue_time);
    assert_eq!(start.end_time, schedule.end_time);
}

#[test]
fn node_status_message_variants_preserve_payload() {
    let state_message = NodeStatusMessage::State { id: "node-1".to_string(), state: State::Started };
    match state_message {
        NodeStatusMessage::State { id, state } => {
            assert_eq!(id, "node-1");
            assert_eq!(state, State::Started);
        }
        other => panic!("unexpected variant: {other:?}"),
    }

    let error_message = NodeStatusMessage::Error { id: "node-2".to_string(), message: "boom".to_string() };
    match error_message {
        NodeStatusMessage::Error { id, message } => {
            assert_eq!(id, "node-2");
            assert_eq!(message, "boom");
        }
        other => panic!("unexpected variant: {other:?}"),
    }
}

#[test]
fn consumer_message_variants_preserve_payload() {
    let config = vec![Setting { key: "video::alpha".to_string(), value: Value::Number(500_000) }];
    let connect = ConsumerMessage::Connect { link_id: "slot-1".to_string(), has_video: true, has_audio: false, config: Some(config) };
    match connect {
        ConsumerMessage::Connect { link_id, has_video, has_audio, config } => {
            assert_eq!(link_id, "slot-1");
            assert!(has_video);
            assert!(!has_audio);
            let config = config.unwrap();
            assert_eq!(config[0].key, "video::alpha");
            assert!(config[0].value == Value::Number(500_000));
        }
        other => panic!("unexpected variant: {other:?}"),
    }

    let add = ConsumerMessage::AddControlPoint {
        slot_id: "slot-1".to_string(),
        property: "audio::volume".to_string(),
        control_point: sample_control_point(),
    };
    match add {
        ConsumerMessage::AddControlPoint { slot_id, property, control_point } => {
            assert_eq!(slot_id, "slot-1");
            assert_eq!(property, "audio::volume");
            assert_eq!(control_point.id, "cp-1");
        }
        other => panic!("unexpected variant: {other:?}"),
    }

    let remove = ConsumerMessage::RemoveControlPoint {
        controller_id: "cp-1".to_string(),
        slot_id: "slot-1".to_string(),
        property: "audio::volume".to_string(),
    };
    match remove {
        ConsumerMessage::RemoveControlPoint { controller_id, slot_id, property } => {
            assert_eq!(controller_id, "cp-1");
            assert_eq!(slot_id, "slot-1");
            assert_eq!(property, "audio::volume");
        }
        other => panic!("unexpected variant: {other:?}"),
    }

    let disconnect = ConsumerMessage::Disconnect { slot_id: "slot-1".to_string() };
    assert!(matches!(disconnect, ConsumerMessage::Disconnect { slot_id } if slot_id == "slot-1"));
}

#[test]
fn message_result_variants_store_command_and_node_info() {
    let command_message = MessageResult::Command(CommandResult::Success);
    assert!(matches!(command_message, MessageResult::Command(CommandResult::Success)));

    let node_info = MessageResult::NodeInfo(NodeInfo::Mixer(MixerInfo {
        slots: vec![SlotEntry { slot_id: "slot-1".to_string(), info: MixerSlotInfo { volume: 1_000_000 } }],
        video_consumer_slot_ids: Some(vec!["link-video".to_string()]),
        audio_consumer_slot_ids: Some(vec!["link-audio".to_string()]),
        cue_time: None,
        end_time: None,
        state: State::Initial,
        settings: Vec::new(),
        control_points: Vec::new(),
        slot_settings: Vec::new(),
        slot_control_points: Vec::new(),
    }));
    match node_info {
        MessageResult::NodeInfo(NodeInfo::Mixer(info)) => {
            assert!(info.slots.iter().any(|s| s.slot_id == "slot-1"));
        }
        other => panic!("unexpected variant: {other:?}"),
    }

    let command_payload = CommandMessage { command: Command::GetInfo { id: None } };
    assert!(matches!(command_payload.command, Command::GetInfo { id: None }));
}
