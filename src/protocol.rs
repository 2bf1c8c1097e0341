//! Wire shapes of the command surface: commands, results, node info,
//! control points, destination families and node states.
use vstd::prelude::*;

verus! {

/// Milliseconds since the Unix epoch, UTC.
pub type Timestamp = i64;

/// Numbers are carried as fixed-point values with six decimal places.
pub const UNIT: i64 = 1000000;

/// Audio and video are enabled unless a command says otherwise.
pub fn default_as_true() -> (r: bool)
    ensures
        r,
{
    true
}

#[derive(Clone, Copy, Debug, PartialEq, Eq, Structural)]
pub enum ControlMode {
    /// Hold the point's value until the next point.
    Step,
    /// Move linearly towards the next point's value.
    Interpolate,
}

#[derive(Clone, Copy, Debug, PartialEq, Eq, Hash, Structural)]
pub enum State {
    Initial,
    Starting,
    Started,
    Stopping,
    Stopped,
}

/// A JSON value as the graph reads it. `Number` holds the value times `UNIT`;
/// `Composite` holds the JSON text of an array or an object.
#[derive(Debug)]
pub enum Value {
    Null,
    Bool(bool),
    Number(i64),
    Text(String),
    Composite(String),
}

impl Value {
    pub open spec fn is_number_spec(&self) -> bool {
        self is Number
    }

    pub fn is_number(&self) -> (r: bool)
        ensures
            r == self.is_number_spec(),
    {
        match self {
            Value::Number(_) => true,
            _ => false,
        }
    }

    pub fn is_string(&self) -> (r: bool)
        ensures
            r == (self is Text),
    {
        match self {
            Value::Text(_) => true,
            _ => false,
        }
    }
}

impl Clone for Value {
    fn clone(&self) -> (r: Self)
        ensures
            r == *self,
    {
        match self {
            Value::Null => Value::Null,
            Value::Bool(b) => Value::Bool(*b),
            Value::Number(n) => Value::Number(*n),
            Value::Text(s) => Value::Text(s.clone()),
            Value::Composite(s) => Value::Composite(s.clone()),
        }
    }
}

impl Value {
    /// Equal as JSON values: texts compare by their characters.
    pub open spec fn same(&self, other: &Value) -> bool {
        match (*self, *other) {
            (Value::Null, Value::Null) => true,
            (Value::Bool(a), Value::Bool(b)) => a == b,
            (Value::Number(a), Value::Number(b)) => a == b,
            (Value::Text(a), Value::Text(b)) => a@ == b@,
            (Value::Composite(a), Value::Composite(b)) => a@ == b@,
            _ => false,
        }
    }
}

impl PartialEq for Value {
    fn eq(&self, other: &Value) -> (r: bool)
        ensures
            r == self.same(other),
    {
        match (self, other) {
            (Value::Null, Value::Null) => true,
            (Value::Bool(a), Value::Bool(b)) => *a == *b,
            (Value::Number(a), Value::Number(b)) => *a == *b,
            (Value::Text(a), Value::Text(b)) => *a == *b,
            (Value::Composite(a), Value::Composite(b)) => *a == *b,
            _ => false,
        }
    }
}

impl vstd::std_specs::cmp::PartialEqSpecImpl for Value {
    open spec fn obeys_eq_spec() -> bool {
        true
    }

    open spec fn eq_spec(&self, other: &Value) -> bool {
        self.same(other)
    }
}

/// The egress shape of a destination.
#[derive(Debug)]
pub enum DestinationFamily {
    Rtmp { uri: String },
    Udp { host: String },
    LocalFile { base_name: String, max_size_time: Option<u32> },
    LocalPlayback,
}

impl Clone for DestinationFamily {
    fn clone(&self) -> (r: Self)
        ensures
            r == *self,
    {
        match self {
            DestinationFamily::Rtmp { uri } => DestinationFamily::Rtmp { uri: uri.clone() },
            DestinationFamily::Udp { host } => DestinationFamily::Udp { host: host.clone() },
            DestinationFamily::LocalFile { base_name, max_size_time } => DestinationFamily::LocalFile {
                base_name: base_name.clone(),
                max_size_time: *max_size_time,
            },
            DestinationFamily::LocalPlayback => DestinationFamily::LocalPlayback,
        }
    }
}

/// A timestamped value for one property.
#[derive(Debug)]
pub struct ControlPoint {
    pub id: String,
    pub time: Timestamp,
    pub value: Value,
    pub mode: ControlMode,
}

impl Clone for ControlPoint {
    fn clone(&self) -> (r: Self)
        ensures
            r == *self,
    {
        ControlPoint {
            id: self.id.clone(),
            time: self.time,
            value: self.value.clone(),
            mode: self.mode,
        }
    }
}

/// One named entry of a settings bag.
#[derive(Debug)]
pub struct Setting {
    pub key: String,
    pub value: Value,
}

impl Clone for Setting {
    fn clone(&self) -> (r: Self)
        ensures
            r == *self,
    {
        Setting { key: self.key.clone(), value: self.value.clone() }
    }
}

/// The control points of one property, ordered by time.
#[derive(Debug, Clone)]
pub struct Series {
    pub property: String,
    pub points: Vec<ControlPoint>,
}

/// The settings of one mixer slot.
#[derive(Debug, Clone)]
pub struct SlotSettings {
    pub slot_id: String,
    pub settings: Vec<Setting>,
}

/// The control points of one mixer slot, per property.
#[derive(Debug, Clone)]
pub struct SlotSeries {
    pub slot_id: String,
    pub series: Vec<Series>,
}

#[derive(Debug, Clone)]
pub enum Command {
    CreateVideoGenerator { id: String },
    CreateSource { id: String, uri: String, audio: bool, video: bool },
    CreateDestination { id: String, family: DestinationFamily, audio: bool, video: bool },
    CreateMixer { id: String, config: Option<Vec<Setting>>, audio: bool, video: bool },
    Connect {
        link_id: String,
        src_id: String,
        sink_id: String,
        audio: bool,
        video: bool,
        config: Option<Vec<Setting>>,
    },
    Start { id: String, cue_time: Option<Timestamp>, end_time: Option<Timestamp> },
    Reschedule { id: String, cue_time: Option<Timestamp>, end_time: Option<Timestamp> },
    Remove { id: String },
    Disconnect { link_id: String },
    GetInfo { id: Option<String> },
    AddControlPoint { controllee_id: String, property: String, control_point: ControlPoint },
    RemoveControlPoint { id: String, controllee_id: String, property: String },
}

/// A command framed by the controller's request id (a UUID in text form).
#[derive(Debug, Clone)]
pub struct ControllerMessage {
    pub id: String,
    pub command: Command,
}

#[derive(Debug, Clone)]
pub struct SourceInfo {
    pub uri: String,
    pub video_consumer_slot_ids: Option<Vec<String>>,
    pub audio_consumer_slot_ids: Option<Vec<String>>,
    pub cue_time: Option<Timestamp>,
    pub end_time: Option<Timestamp>,
    pub state: State,
}

#[derive(Debug, Clone)]
pub struct DestinationInfo {
    pub family: DestinationFamily,
    pub audio_slot_id: Option<String>,
    pub video_slot_id: Option<String>,
    pub cue_time: Option<Timestamp>,
    pub end_time: Option<Timestamp>,
    pub state: State,
}

/// The volume of a slot, in `UNIT`s.
#[derive(Debug, Clone, Copy)]
pub struct MixerSlotInfo {
    pub volume: i64,
}

/// A slot of a mixer with its derived info.
#[derive(Debug, Clone)]
pub struct SlotEntry {
    pub slot_id: String,
    pub info: MixerSlotInfo,
}

#[derive(Debug, Clone)]
pub struct MixerInfo {
    pub slots: Vec<SlotEntry>,
    pub video_consumer_slot_ids: Option<Vec<String>>,
    pub audio_consumer_slot_ids: Option<Vec<String>>,
    pub cue_time: Option<Timestamp>,
    pub end_time: Option<Timestamp>,
    pub state: State,
    pub settings: Vec<Setting>,
    pub control_points: Vec<Series>,
    pub slot_settings: Vec<SlotSettings>,
    pub slot_control_points: Vec<SlotSeries>,
}

#[derive(Debug, Clone)]
pub enum NodeInfo {
    Source(SourceInfo),
    Destination(DestinationInfo),
    Mixer(MixerInfo),
}

/// The info of one node, under its id.
#[derive(Debug, Clone)]
pub struct NodeEntry {
    pub id: String,
    pub info: NodeInfo,
}

#[derive(Debug, Clone)]
pub struct Info {
    pub nodes: Vec<NodeEntry>,
}

#[derive(Debug, Clone)]
pub enum CommandResult {
    Error(String),
    Success,
    Info(Info),
}

/// A result, framed by the request id it answers (none for an unframed command).
#[derive(Debug, Clone)]
pub struct ServerMessage {
    pub id: Option<String>,
    pub result: CommandResult,
}

} // verus!
