//! The graph: nodes, links and stream bridges, changed by commands.
use crate::media_bridge::StreamBridge;
use crate::nodes::destination::{connect_input_error, start_error, DestinationNode};
use crate::control::without_id;
use crate::nodes::mixer::{config_error, configured_setting_holds, setting_error, slot_config_error, slot_ids, slot_point_error, MixerNode};
use crate::settings::{lookup, points_for, with_point};
use crate::nodes::source::SourceNode;
use crate::nodes::video_generator::VideoGeneratorNode;
use crate::protocol::{
    Command, CommandResult, ControlPoint, DestinationFamily, Info, NodeEntry, NodeInfo, Setting, State, Timestamp,
};
use crate::nodes::Timing;
use crate::schedule::settle;
use crate::text::{distinct, join2, join3, join4, texts, without_text};
use vstd::prelude::*;

verus! {

/// One of the two kinds of media a link can carry.
#[derive(Clone, Copy, Debug, PartialEq, Eq, Structural)]
pub enum Medium {
    Audio,
    Video,
}

/// A node of any kind.
#[derive(Debug, Clone)]
pub enum NodeRecord {
    Source(SourceNode),
    Destination(DestinationNode),
    Mixer(MixerNode),
    VideoGenerator(VideoGeneratorNode),
}

/// Same id, same kind, same media.
pub open spec fn same_kind(a: NodeRecord, b: NodeRecord) -> bool {
    &&& a.id() == b.id()
    &&& (a is Source <==> b is Source)
    &&& (a is Destination <==> b is Destination)
    &&& (a is Mixer <==> b is Mixer)
    &&& (a is VideoGenerator <==> b is VideoGenerator)
    &&& forall|m: Medium| a.can_output(m) == b.can_output(m) && a.can_input(m) == b.can_input(m)
}

/// The parts of a node that commands read and that time does not change:
/// its id, kind, media, and the slots that link to it.
pub open spec fn same_shape(a: NodeRecord, b: NodeRecord) -> bool {
    match (a, b) {
        (NodeRecord::Source(x), NodeRecord::Source(y)) => x.id == y.id && x.audio_enabled == y.audio_enabled
            && x.video_enabled == y.video_enabled,
        (NodeRecord::VideoGenerator(x), NodeRecord::VideoGenerator(y)) => x.id == y.id && x.audio_enabled
            == y.audio_enabled && x.video_enabled == y.video_enabled,
        (NodeRecord::Destination(x), NodeRecord::Destination(y)) => x.id == y.id && x.audio_enabled
            == y.audio_enabled && x.video_enabled == y.video_enabled && x.audio_slot_id == y.audio_slot_id
            && x.video_slot_id == y.video_slot_id,
        (NodeRecord::Mixer(x), NodeRecord::Mixer(y)) => x.id == y.id && x.audio_enabled == y.audio_enabled
            && x.video_enabled == y.video_enabled && slot_ids(x.slots@) == slot_ids(y.slots@),
        _ => false,
    }
}

impl NodeRecord {
    pub open spec fn id(&self) -> Seq<char> {
        match self {
            NodeRecord::Source(n) => n.id@,
            NodeRecord::Destination(n) => n.id@,
            NodeRecord::Mixer(n) => n.id@,
            NodeRecord::VideoGenerator(n) => n.id@,
        }
    }

    pub open spec fn wf(&self) -> bool {
        match self {
            NodeRecord::Source(n) => n.wf(),
            NodeRecord::Destination(n) => n.wf(),
            NodeRecord::Mixer(n) => n.wf(),
            NodeRecord::VideoGenerator(n) => n.wf(),
        }
    }

    pub open spec fn state(&self) -> State {
        match self {
            NodeRecord::Source(n) => n.timing.state,
            NodeRecord::Destination(n) => n.timing.state,
            NodeRecord::Mixer(n) => n.timing.state,
            NodeRecord::VideoGenerator(n) => n.timing.state,
        }
    }

    /// Sources, mixers and video generators emit their enabled media.
    pub open spec fn can_output(&self, m: Medium) -> bool {
        match self {
            NodeRecord::Source(n) => if m == Medium::Audio { n.audio_enabled } else { n.video_enabled },
            NodeRecord::Mixer(n) => if m == Medium::Audio { n.audio_enabled } else { n.video_enabled },
            NodeRecord::VideoGenerator(n) => if m == Medium::Audio { n.audio_enabled } else { n.video_enabled },
            NodeRecord::Destination(_) => false,
        }
    }

    /// Destinations and mixers ingest their enabled media.
    pub open spec fn can_input(&self, m: Medium) -> bool {
        match self {
            NodeRecord::Destination(n) => if m == Medium::Audio { n.audio_enabled } else { n.video_enabled },
            NodeRecord::Mixer(n) => if m == Medium::Audio { n.audio_enabled } else { n.video_enabled },
            _ => false,
        }
    }

    /// A node has a live pipeline while it prerolls or plays.
    pub open spec fn is_live(&self) -> bool {
        self.state() == State::Starting || self.state() == State::Started
    }

    pub fn id_text(&self) -> (r: &String)
        ensures
            r@ == self.id(),
    {
        match self {
            NodeRecord::Source(n) => &n.id,
            NodeRecord::Destination(n) => &n.id,
            NodeRecord::Mixer(n) => &n.id,
            NodeRecord::VideoGenerator(n) => &n.id,
        }
    }

    pub fn can_output_medium(&self, m: Medium) -> (r: bool)
        ensures
            r == self.can_output(m),
    {
        match self {
            NodeRecord::Source(n) => if m == Medium::Audio { n.audio_enabled } else { n.video_enabled },
            NodeRecord::Mixer(n) => if m == Medium::Audio { n.audio_enabled } else { n.video_enabled },
            NodeRecord::VideoGenerator(n) => if m == Medium::Audio { n.audio_enabled } else { n.video_enabled },
            NodeRecord::Destination(_) => false,
        }
    }

    pub fn can_input_medium(&self, m: Medium) -> (r: bool)
        ensures
            r == self.can_input(m),
    {
        match self {
            NodeRecord::Destination(n) => if m == Medium::Audio { n.audio_enabled } else { n.video_enabled },
            NodeRecord::Mixer(n) => if m == Medium::Audio { n.audio_enabled } else { n.video_enabled },
            _ => false,
        }
    }

    pub fn live(&self) -> (r: bool)
        ensures
            r == self.is_live(),
    {
        let s = match self {
            NodeRecord::Source(n) => n.timing.state,
            NodeRecord::Destination(n) => n.timing.state,
            NodeRecord::Mixer(n) => n.timing.state,
            NodeRecord::VideoGenerator(n) => n.timing.state,
        };
        s == State::Starting || s == State::Started
    }

    pub open spec fn timing(&self) -> Timing {
        match self {
            NodeRecord::Source(n) => n.timing,
            NodeRecord::Destination(n) => n.timing,
            NodeRecord::Mixer(n) => n.timing,
            NodeRecord::VideoGenerator(n) => n.timing,
        }
    }

    /// Destinations have no preroll lead; the other kinds do.
    pub open spec fn lead(&self) -> bool {
        !(self is Destination)
    }

    /// The node with its timing replaced.
    #[verifier::opaque]
    pub open spec fn with_timing(&self, t: Timing) -> NodeRecord {
        match *self {
            NodeRecord::Source(n) => NodeRecord::Source(SourceNode { timing: t, ..n }),
            NodeRecord::Destination(n) => NodeRecord::Destination(DestinationNode { timing: t, ..n }),
            NodeRecord::Mixer(n) => NodeRecord::Mixer(MixerNode { timing: t, ..n }),
            NodeRecord::VideoGenerator(n) => NodeRecord::VideoGenerator(VideoGeneratorNode { timing: t, ..n }),
        }
    }

    /// The texts of a producer's audio and video consumer lists.
    #[verifier::opaque]
    pub open spec fn consumer_texts(&self) -> Option<(Seq<Seq<char>>, Seq<Seq<char>>)> {
        match self {
            NodeRecord::Source(n) => Some((texts(n.consumers.audio@), texts(n.consumers.video@))),
            NodeRecord::Mixer(n) => Some((texts(n.consumers.audio@), texts(n.consumers.video@))),
            NodeRecord::VideoGenerator(n) => Some((texts(n.consumers.audio@), texts(n.consumers.video@))),
            NodeRecord::Destination(_) => None,
        }
    }

    /// `new` is this node brought up to `now`: same identity, uri, family,
    /// consumers and slots; the schedule advanced if the node has one; a
    /// mixer's series evaluated into its settings and slots.
    #[verifier::opaque]
    pub open spec fn refreshed_to(&self, new: NodeRecord, now: int) -> bool {
        &&& same_shape(*self, new)
        &&& new.timing().cue_time == self.timing().cue_time
        &&& new.timing().end_time == self.timing().end_time
        &&& new.timing().last_error == self.timing().last_error
        &&& new.timing().scheduled == self.timing().scheduled
        &&& new.timing().state == self.timing().advanced(now, self.lead())
        &&& match (*self, new) {
            (NodeRecord::Source(a), NodeRecord::Source(b)) => b.uri == a.uri && b.consumers == a.consumers,
            (NodeRecord::VideoGenerator(a), NodeRecord::VideoGenerator(b)) => b.consumers == a.consumers,
            (NodeRecord::Destination(a), NodeRecord::Destination(b)) => b.family == a.family && (b.pipeline is Some) == (a.pipeline is Some),
            (NodeRecord::Mixer(a), NodeRecord::Mixer(b)) => {
                &&& b.consumers == a.consumers
                &&& b.control_points == a.control_points
                &&& b.slots.len() == a.slots.len()
                &&& forall|i: int| 0 <= i < b.slots.len() ==> crate::nodes::mixer::slot_applied(a.slots@[i], #[trigger] b.slots@[i], now)
                &&& forall|k: Seq<char>| #[trigger] crate::settings::lookup(b.settings@, k) == crate::settings::applied_value(a.settings@, a.control_points@, now, k)
            },
            _ => false,
        }
    }

    /// `i` is this node's info, field for field.
    #[verifier::opaque]
    pub open spec fn info_matches(&self, i: NodeInfo) -> bool {
        match (*self, i) {
            (NodeRecord::Source(n), NodeInfo::Source(s)) => s.uri@ == n.uri@
                && crate::nodes::source::source_info_matches(s, n.consumers, n.timing),
            (NodeRecord::VideoGenerator(n), NodeInfo::Source(s)) => s.uri@ == crate::nodes::video_generator::generator_uri(n.id@)
                && crate::nodes::source::source_info_matches(s, n.consumers, n.timing),
            (NodeRecord::Destination(n), NodeInfo::Destination(d)) => d.family == n.family && d.audio_slot_id == n.audio_slot_id
                && d.video_slot_id == n.video_slot_id && d.cue_time == n.timing.cue_time && d.end_time == n.timing.end_time
                && d.state == n.timing.state,
            (NodeRecord::Mixer(n), NodeInfo::Mixer(m)) => n.info_of(m),
            _ => false,
        }
    }

    /// Advances the node's schedule to `now`; a mixer first evaluates its
    /// control points.
    pub fn refresh(&mut self, now: Timestamp)
        requires
            old(self).wf(),
        ensures
            final(self).wf(),
            same_shape(*old(self), *final(self)),
            old(self).refreshed_to(*final(self), now as int),
    {
        let ghost o = *self;
        match self {
            NodeRecord::Source(n) => {
                n.refresh(now);
            },
            NodeRecord::Destination(n) => {
                n.refresh(now);
            },
            NodeRecord::Mixer(n) => {
                n.refresh(now);
            },
            NodeRecord::VideoGenerator(n) => {
                n.refresh(now);
            },
        }
        proof {
            reveal(NodeRecord::refreshed_to);
            assert(o.lead() == !(o is Destination));
            assert(self.timing().state == o.timing().advanced(now as int, o.lead()));
        }
    }

    /// Gives the node new times; a destination refuses unless every enabled
    /// medium has its slot.
    pub fn set_schedule(&mut self, cue_time: Option<Timestamp>, end_time: Option<Timestamp>, now: Timestamp) -> (r: Result<(), String>)
        requires
            old(self).wf(),
        ensures
            final(self).wf(),
            same_shape(*old(self), *final(self)),
            match *old(self) {
                NodeRecord::Destination(d) => match start_error(d) {
                    Some(m) => r is Err && r->Err_0@ == m && *final(self) == *old(self),
                    None => r is Ok,
                },
                _ => r is Ok,
            },
            r is Ok ==> {
                &&& final(self).timing().cue_time == cue_time
                &&& final(self).timing().end_time == end_time
                &&& final(self).timing().last_error is None
                &&& final(self).timing().scheduled
                &&& final(self).timing().state == settle(State::Initial, cue_time, end_time, now as int, old(self).lead())
            },
    {
        match self {
            NodeRecord::Source(n) => {
                n.schedule(cue_time, end_time, now);
                Ok(())
            },
            NodeRecord::Destination(n) => n.schedule(cue_time, end_time, now),
            NodeRecord::Mixer(n) => {
                n.schedule(cue_time, end_time, now);
                Ok(())
            },
            NodeRecord::VideoGenerator(n) => {
                n.schedule(cue_time, end_time, now);
                Ok(())
            },
        }
    }

    pub fn stop(&mut self)
        requires
            old(self).wf(),
        ensures
            final(self).wf(),
            same_shape(*old(self), *final(self)),
            final(self).state() == State::Stopped,
    {
        match self {
            NodeRecord::Source(n) => n.stop(),
            NodeRecord::Destination(n) => n.stop(),
            NodeRecord::Mixer(n) => n.stop(),
            NodeRecord::VideoGenerator(n) => n.stop(),
        }
    }

    /// Records an error; nothing else changes.
    pub fn mark_error(&mut self, message: String)
        requires
            old(self).wf(),
        ensures
            final(self).wf(),
            same_shape(*old(self), *final(self)),
            final(self).state() == old(self).state(),
            *final(self) == old(self).with_timing(Timing { last_error: Some(message), ..old(self).timing() }),
            final(self).timing().cue_time == old(self).timing().cue_time,
            final(self).timing().end_time == old(self).timing().end_time,
            final(self).timing().state == old(self).timing().state,
    {
        match self {
            NodeRecord::Source(n) => n.timing.mark_error(message),
            NodeRecord::Destination(n) => n.timing.mark_error(message),
            NodeRecord::Mixer(n) => n.timing.mark_error(message),
            NodeRecord::VideoGenerator(n) => n.timing.mark_error(message),
        }
        proof {
            reveal(NodeRecord::with_timing);
        }
    }

    /// Records `link_id` as a consumer of the producer's output.
    pub fn add_consumer_link(&mut self, link_id: &String, audio: bool, video: bool)
        requires
            old(self).wf(),
        ensures
            final(self).wf(),
            same_shape(*old(self), *final(self)),
            final(self).state() == old(self).state(),
            final(self).timing() == old(self).timing(),
            match old(self).consumer_texts() {
                Some((a, v)) => final(self).consumer_texts() == Some((
                    if audio && !a.contains(link_id@) { a.push(link_id@) } else { a },
                    if video && !v.contains(link_id@) { v.push(link_id@) } else { v },
                )),
                None => *final(self) == *old(self),
            },
    {
        match self {
            NodeRecord::Source(n) => n.consumers.add(link_id, audio, video),
            NodeRecord::Mixer(n) => n.connect_output_consumer(link_id, audio, video),
            NodeRecord::VideoGenerator(n) => n.consumers.add(link_id, audio, video),
            NodeRecord::Destination(_) => {},
        }
        proof {
            reveal(NodeRecord::consumer_texts);
        }
    }

    pub fn remove_consumer_link(&mut self, link_id: &String)
        requires
            old(self).wf(),
        ensures
            final(self).wf(),
            same_shape(*old(self), *final(self)),
            final(self).state() == old(self).state(),
            final(self).timing() == old(self).timing(),
            match old(self).consumer_texts() {
                Some((a, v)) => final(self).consumer_texts() == Some((without_text(a, link_id@), without_text(v, link_id@))),
                None => *final(self) == *old(self),
            },
    {
        match self {
            NodeRecord::Source(n) => n.consumers.remove(link_id),
            NodeRecord::Mixer(n) => n.disconnect_output_consumer(link_id),
            NodeRecord::VideoGenerator(n) => n.consumers.remove(link_id),
            NodeRecord::Destination(_) => {},
        }
        proof {
            reveal(NodeRecord::consumer_texts);
        }
    }

    /// The node's info; a video generator is reported as a source.
    pub fn to_info(&self) -> (r: NodeInfo)
        requires
            self.wf(),
        ensures
            self is Source ==> r is Source,
            self is VideoGenerator ==> r is Source,
            self is Destination ==> r is Destination,
            self is Mixer ==> r is Mixer,
            r is Source ==> r->Source_0.state == self.state(),
            r is Destination ==> r->Destination_0.state == self.state(),
            r is Mixer ==> r->Mixer_0.state == self.state(),
            self.info_matches(r),
    {
        let r = match self {
            NodeRecord::Source(n) => n.as_info(),
            NodeRecord::Destination(n) => n.as_info(),
            NodeRecord::Mixer(n) => n.as_info(),
            NodeRecord::VideoGenerator(n) => n.as_compatible_source_info(),
        };
        proof {
            reveal(NodeRecord::info_matches);
        }
        r
    }
}

/// A link from a producer to a consumer.
#[derive(Debug, Clone)]
pub struct LinkRecord {
    pub link_id: String,
    pub src_id: String,
    pub sink_id: String,
    pub audio: bool,
    pub video: bool,
    pub config: Option<Vec<Setting>>,
}

/// The bridge of one producer for one medium.
#[derive(Debug)]
pub struct BridgeEntry {
    pub src_id: String,
    pub medium: Medium,
    pub bridge: StreamBridge,
}

/// The node that a create command adds: its kind, id, media, uri, family or
/// settings as the command gives them, no links, and no schedule yet.
pub open spec fn created_node(n: NodeRecord, cmd: Command) -> bool {
    match cmd {
        Command::CreateVideoGenerator { id } => n is VideoGenerator && n->VideoGenerator_0.id@ == id@
            && !n->VideoGenerator_0.audio_enabled && n->VideoGenerator_0.video_enabled
            && n->VideoGenerator_0.timing == Timing::new_spec() && n->VideoGenerator_0.consumers.audio@.len() == 0
            && n->VideoGenerator_0.consumers.video@.len() == 0,
        Command::CreateSource { id, uri, audio, video } => n is Source && n->Source_0.id@ == id@ && n->Source_0.uri@ == uri@
            && n->Source_0.audio_enabled == audio && n->Source_0.video_enabled == video
            && n->Source_0.timing == Timing::new_spec() && n->Source_0.consumers.audio@.len() == 0
            && n->Source_0.consumers.video@.len() == 0,
        Command::CreateDestination { id, family, audio, video } => n is Destination && n->Destination_0.id@ == id@
            && n->Destination_0.family == family && n->Destination_0.audio_enabled == audio
            && n->Destination_0.video_enabled == video && n->Destination_0.audio_slot_id is None
            && n->Destination_0.video_slot_id is None && n->Destination_0.timing == Timing::new_spec(),
        Command::CreateMixer { id, config, audio, video } => n is Mixer && n->Mixer_0.id@ == id@
            && n->Mixer_0.audio_enabled == audio && n->Mixer_0.video_enabled == video
            && n->Mixer_0.timing == Timing::new_spec() && n->Mixer_0.slots@.len() == 0
            && n->Mixer_0.control_points@.len() == 0 && n->Mixer_0.consumers.audio@.len() == 0
            && n->Mixer_0.consumers.video@.len() == 0
            && forall|k: Seq<char>| #[trigger] configured_setting_holds(config, n->Mixer_0.settings@, k),
        _ => true,
    }
}

/// After a link `link` from `src` to `sink`: the consumer holds it in its
/// slot(s), and the producer lists it for each medium it carries.
pub open spec fn connected(nodes: Seq<NodeRecord>, link: Seq<char>, src: Seq<char>, sink: Seq<char>, audio: bool, video: bool) -> bool {
    &&& node_of(nodes, sink) is Destination ==> (audio ==> node_of(nodes, sink)->Destination_0.audio_slot_id is Some && node_of(nodes, sink)->Destination_0.audio_slot_id->0@ == link)
        && (video ==> node_of(nodes, sink)->Destination_0.video_slot_id is Some && node_of(nodes, sink)->Destination_0.video_slot_id->0@ == link)
    &&& node_of(nodes, sink) is Mixer ==> slot_ids(node_of(nodes, sink)->Mixer_0.slots@).contains(link)
    &&& node_of(nodes, src).consumer_texts() matches Some((a, v)) ==> (audio ==> a.contains(link)) && (video ==> v.contains(link))
}

/// After a start or reschedule of `id`: on success the node has the new
/// times and the state they give at `now`; on failure its times and state
/// are as they were.
pub open spec fn schedule_effect(m: Seq<NodeRecord>, f: Seq<NodeRecord>, id: Seq<char>, cue: Option<Timestamp>, end: Option<Timestamp>, r: CommandResult, now: int) -> bool {
    node_ids(m).contains(id) ==> {
        let n = node_of(f, id);
        let o = node_of(m, id);
        &&& r is Success ==> n.timing().cue_time == cue && n.timing().end_time == end && n.timing().scheduled
            && n.timing().state == settle(State::Initial, cue, end, now, o.lead())
        &&& r is Error ==> n.timing().cue_time == o.timing().cue_time && n.timing().end_time == o.timing().end_time
            && n.timing().state == o.timing().state
    }
}

/// What adding a control point does: to a mixer slot, the slot's series for
/// the property gains the point; to a mixer, its series for the setting
/// gains it, with the mixer's errors for an unknown setting or a wrong type.
pub open spec fn point_added(m: NodeManager, f: NodeManager, c: Seq<char>, p: Seq<char>, cp: ControlPoint, r: CommandResult, now: int) -> bool {
    if link_ids(m.links@).contains(c) {
        let sink = link_of(m.links@, c).sink_id@;
        r is Success ==> node_of(m.nodes@, sink) is Mixer && node_of(f.nodes@, sink) is Mixer && exists|j: int|
            #[trigger] node_of(f.nodes@, sink)->Mixer_0.slot_series_changed(node_of(m.nodes@, sink)->Mixer_0, j, now)
            && node_of(m.nodes@, sink)->Mixer_0.slots@[j].slot_id@ == c
            && points_for(node_of(f.nodes@, sink)->Mixer_0.slots@[j].control_points@, p)
                == Some(with_point(node_of(m.nodes@, sink)->Mixer_0.slots@[j].control_points@, p, cp))
    } else if node_ids(m.nodes@).contains(c) && node_of(m.nodes@, c) is Mixer {
        let a = node_of(m.nodes@, c)->Mixer_0;
        &&& lookup(a.settings@, p) is None ==> is_error(r, "Mixer "@ + a.id@ + " has no setting with name "@ + p)
        &&& lookup(a.settings@, p) is Some ==> match setting_error(p, cp.value) {
            Some(e) => is_error(r, e),
            None => r is Success,
        }
        &&& r is Success ==> node_of(f.nodes@, c) is Mixer && points_for(node_of(f.nodes@, c)->Mixer_0.control_points@, p)
            == Some(with_point(a.control_points@, p, cp))
    } else {
        true
    }
}

/// What removing a control point from a mixer does: its series for the
/// property loses the points named `id`.
pub open spec fn point_removed(m: NodeManager, f: NodeManager, id: Seq<char>, c: Seq<char>, p: Seq<char>) -> bool {
    !link_ids(m.links@).contains(c) && node_ids(m.nodes@).contains(c) && node_of(m.nodes@, c) is Mixer ==> {
        let a = node_of(m.nodes@, c)->Mixer_0;
        node_of(f.nodes@, c) is Mixer && points_for(node_of(f.nodes@, c)->Mixer_0.control_points@, p) == match points_for(a.control_points@, p) {
            Some(pts) => Some(without_id(pts, id)),
            None => None,
        }
    }
}

/// What a command does to the graph `m` it meets, with result `r` and
/// graph `f` right after it: the node a create adds, the link a connect
/// adds and the slots it takes, the times a start sets, the slots and
/// consumer lists a remove frees, each node's info that getinfo answers, and
/// the series a control point changes.
#[verifier::opaque]
pub open spec fn command_effect(m: NodeManager, cmd: Command, r: CommandResult, f: NodeManager, now: int) -> bool {
    match cmd {
        Command::Connect { link_id, src_id, sink_id, audio, video, config } => {
            &&& r is Success ==> {
                &&& f.links@ == m.links@.push(f.links@.last())
                &&& f.links@.last().link_id@ == link_id@
                &&& f.links@.last().src_id@ == src_id@
                &&& f.links@.last().sink_id@ == sink_id@
                &&& f.links@.last().audio == audio
                &&& f.links@.last().video == video
                &&& f.links@.last().config == config
                &&& connected(f.nodes@, link_id@, src_id@, sink_id@, audio, video)
            }
            &&& !(r is Success) ==> f.nodes@ == m.nodes@ && f.links@ == m.links@
        },
        Command::Start { id, cue_time, end_time } => schedule_effect(m.nodes@, f.nodes@, id@, cue_time, end_time, r, now),
        Command::Reschedule { id, cue_time, end_time } => schedule_effect(m.nodes@, f.nodes@, id@, cue_time, end_time, r, now),
        Command::GetInfo { id } => {
            &&& f.nodes@ == m.nodes@
            &&& id is Some && r is Info ==> node_of(m.nodes@, id->0@).info_matches(r->Info_0.nodes@[0].info)
            &&& id is None ==> r is Info && forall|k: int| 0 <= k < m.nodes@.len() ==> #[trigger] m.nodes@[k].info_matches(r->Info_0.nodes@[k].info)
        },
        Command::AddControlPoint { controllee_id, property, control_point } => point_added(m, f, controllee_id@, property@, control_point, r, now),
        Command::RemoveControlPoint { id, controllee_id, property } => point_removed(m, f, id@, controllee_id@, property@),
        Command::Disconnect { .. } => true,
        Command::Remove { id } => r is Success ==> forall|k: int| 0 <= k < m.links.len() && mentions(#[trigger] m.links@[k], id@)
            ==> released_from(f.nodes@, m.links@[k]),
        _ => {
            &&& r is Success ==> f.nodes@ == m.nodes@.push(f.nodes@.last()) && created_node(f.nodes@.last(), cmd)
            &&& !(r is Success) ==> f.nodes@ == m.nodes@
        },
    }
}

/// The three steps of a dispatch at `now`: `m` brought up to date is `mid`,
/// the command turns `mid` into `g`, and `g` brought up to date is `f`.
pub open spec fn dispatch_steps(m: NodeManager, mid: NodeManager, g: NodeManager, f: NodeManager, cmd: Command, r: CommandResult, now: int) -> bool {
    &&& nodes_refreshed(m.nodes@, mid.nodes@, now)
    &&& mid.links@ == m.links@
    &&& command_effect(mid, cmd, r, g, now)
    &&& nodes_refreshed(g.nodes@, f.nodes@, now)
    &&& f.links@ == g.links@
}

/// The producer lists `x` among its consumers.
pub open spec fn lists(n: NodeRecord, x: Seq<char>) -> bool {
    match n.consumer_texts() {
        Some((a, v)) => a.contains(x) || v.contains(x),
        None => false,
    }
}

/// The consumer holds `x` in a slot.
pub open spec fn slots_hold(n: NodeRecord, x: Seq<char>) -> bool {
    match n {
        NodeRecord::Destination(d) => (d.audio_slot_id is Some && d.audio_slot_id->0@ == x)
            || (d.video_slot_id is Some && d.video_slot_id->0@ == x),
        NodeRecord::Mixer(m) => slot_ids(m.slots@).contains(x),
        _ => false,
    }
}

/// No node is left listing `x`, or holding it in a slot, that did not
/// before.
pub open spec fn nothing_gained(a: Seq<NodeRecord>, b: Seq<NodeRecord>) -> bool {
    &&& a.len() == b.len()
    &&& forall|i: int, x: Seq<char>| 0 <= i < a.len() && !lists(a[i], x) ==> !#[trigger] lists(b[i], x)
    &&& forall|i: int, x: Seq<char>| 0 <= i < a.len() && !slots_hold(a[i], x) ==> !#[trigger] slots_hold(b[i], x)
}

/// The link's producer no longer lists it and its consumer no longer holds
/// it in a slot.
pub open spec fn released_from(nodes: Seq<NodeRecord>, l: LinkRecord) -> bool {
    &&& forall|i: int| 0 <= i < nodes.len() && #[trigger] nodes[i].id() == l.src_id@ ==> !lists(nodes[i], l.link_id@)
    &&& forall|i: int| 0 <= i < nodes.len() && #[trigger] nodes[i].id() == l.sink_id@ ==> !slots_hold(nodes[i], l.link_id@)
}

proof fn lemma_released_kept(a: Seq<NodeRecord>, b: Seq<NodeRecord>, l: LinkRecord)
    requires
        nothing_gained(a, b),
        forall|i: int| 0 <= i < a.len() ==> #[trigger] a[i].id() == b[i].id(),
        released_from(a, l),
    ensures
        released_from(b, l),
{
    assert forall|i: int| 0 <= i < b.len() && #[trigger] b[i].id() == l.src_id@ implies !lists(b[i], l.link_id@) by {
        assert(a[i].id() == b[i].id());
        assert(!lists(a[i], l.link_id@));
    }
    assert forall|i: int| 0 <= i < b.len() && #[trigger] b[i].id() == l.sink_id@ implies !slots_hold(b[i], l.link_id@) by {
        assert(a[i].id() == b[i].id());
        assert(!slots_hold(a[i], l.link_id@));
    }
}

proof fn lemma_released_after_remove(a: Seq<NodeRecord>, j: int, l: LinkRecord)
    requires
        0 <= j < a.len(),
        released_from(a, l),
    ensures
        released_from(a.remove(j), l),
{
    let b = a.remove(j);
    assert forall|i: int| 0 <= i < b.len() && #[trigger] b[i].id() == l.src_id@ implies !lists(b[i], l.link_id@) by {
        let i2 = if i < j { i } else { i + 1 };
        assert(b[i] == a[i2]);
    }
    assert forall|i: int| 0 <= i < b.len() && #[trigger] b[i].id() == l.sink_id@ implies !slots_hold(b[i], l.link_id@) by {
        let i2 = if i < j { i } else { i + 1 };
        assert(b[i] == a[i2]);
    }
}

proof fn lemma_src_release(o: NodeRecord, n: NodeRecord, x: Seq<char>)
    requires
        same_shape(o, n),
        match o.consumer_texts() {
            Some((a, v)) => n.consumer_texts() == Some((without_text(a, x), without_text(v, x))),
            None => true,
        },
        o.consumer_texts() is None ==> n == o,
    ensures
        !lists(n, x),
        forall|y: Seq<char>| !lists(o, y) ==> !lists(n, y),
        forall|y: Seq<char>| !slots_hold(o, y) ==> !slots_hold(n, y),
{
    if o.consumer_texts() is Some {
        let (a, v) = o.consumer_texts()->0;
        assert forall|y: Seq<char>| !lists(o, y) implies !lists(n, y) by {
            if without_text(a, x).contains(y) {
                crate::media_bridge::lemma_filter_contains(a, x, y);
            }
            if without_text(v, x).contains(y) {
                crate::media_bridge::lemma_filter_contains(v, x, y);
            }
        }
        if without_text(a, x).contains(x) {
            crate::media_bridge::lemma_filter_contains(a, x, x);
        }
        if without_text(v, x).contains(x) {
            crate::media_bridge::lemma_filter_contains(v, x, x);
        }
    } else {
        assert(!lists(n, x));
    }
}

proof fn lemma_sink_release(o: NodeRecord, n: NodeRecord, x: Seq<char>)
    requires
        same_kind(o, n),
        match (o, n) {
            (NodeRecord::Destination(a), NodeRecord::Destination(b)) => b.audio_slot_id == crate::nodes::destination::released(a.audio_slot_id, x)
                && b.video_slot_id == crate::nodes::destination::released(a.video_slot_id, x),
            (NodeRecord::Mixer(a), NodeRecord::Mixer(b)) => b.consumers == a.consumers && !slot_ids(b.slots@).contains(x)
                && forall|i: int| 0 <= i < b.slots.len() ==> a.slots@.contains(#[trigger] b.slots@[i]),
            _ => n == o,
        },
    ensures
        !slots_hold(n, x) || !(o is Destination || o is Mixer),
        forall|y: Seq<char>| !lists(o, y) ==> !lists(n, y),
        forall|y: Seq<char>| !slots_hold(o, y) ==> !slots_hold(n, y),
{
    reveal(NodeRecord::consumer_texts);
    if o is Mixer {
        let a = o->Mixer_0;
        let b = n->Mixer_0;
        assert forall|y: Seq<char>| !slots_hold(o, y) implies !slots_hold(n, y) by {
            if slot_ids(b.slots@).contains(y) {
                let k = choose|k: int| 0 <= k < slot_ids(b.slots@).len() && slot_ids(b.slots@)[k] == y;
                assert(a.slots@.contains(b.slots@[k]));
                let k2 = choose|k2: int| 0 <= k2 < a.slots@.len() && a.slots@[k2] == b.slots@[k];
                assert(slot_ids(a.slots@)[k2] == y);
            }
        }
    }
}

/// Node for node, `b` is `a` brought up to `now`.
pub open spec fn nodes_refreshed(a: Seq<NodeRecord>, b: Seq<NodeRecord>, now: int) -> bool {
    &&& a.len() == b.len()
    &&& forall|i: int| 0 <= i < a.len() ==> #[trigger] a[i].refreshed_to(b[i], now)
}

pub open spec fn node_ids(nodes: Seq<NodeRecord>) -> Seq<Seq<char>> {
    nodes.map_values(|n: NodeRecord| n.id())
}

pub open spec fn link_ids(links: Seq<LinkRecord>) -> Seq<Seq<char>> {
    links.map_values(|l: LinkRecord| l.link_id@)
}

/// The node named `id` (meaningful when there is one).
pub open spec fn node_of(nodes: Seq<NodeRecord>, id: Seq<char>) -> NodeRecord {
    nodes[choose|i: int| 0 <= i < nodes.len() && nodes[i].id() == id]
}

/// Where the link named `id` is (meaningful when there is one).
pub open spec fn link_index(links: Seq<LinkRecord>, id: Seq<char>) -> int {
    choose|i: int| 0 <= i < links.len() && link_ids(links)[i] == id
}

/// The link named `id` (meaningful when there is one).
pub open spec fn link_of(links: Seq<LinkRecord>, id: Seq<char>) -> LinkRecord {
    links[link_index(links, id)]
}

/// Whether the link mentions the node `id` at either end.
pub open spec fn mentions(l: LinkRecord, id: Seq<char>) -> bool {
    l.src_id@ == id || l.sink_id@ == id
}

pub open spec fn bridge_srcs(b: Seq<BridgeEntry>) -> Seq<Seq<char>> {
    b.map_values(|e: BridgeEntry| e.src_id@)
}

pub open spec fn is_error(r: CommandResult, m: Seq<char>) -> bool {
    r is Error && r->Error_0@ == m
}

proof fn lemma_node_of(nodes: Seq<NodeRecord>, k: int)
    requires
        distinct(node_ids(nodes)),
        0 <= k < nodes.len(),
    ensures
        node_of(nodes, nodes[k].id()) == nodes[k],
{
    let id = nodes[k].id();
    assert(node_ids(nodes)[k] == id);
    let i = choose|i: int| 0 <= i < nodes.len() && nodes[i].id() == id;
    assert(node_ids(nodes)[i] == id);
    if i < k {
        assert(node_ids(nodes)[i] != node_ids(nodes)[k]);
    } else if k < i {
        assert(node_ids(nodes)[k] != node_ids(nodes)[i]);
    }
}

proof fn lemma_link_of(links: Seq<LinkRecord>, k: int)
    requires
        distinct(link_ids(links)),
        0 <= k < links.len(),
    ensures
        link_of(links, links[k].link_id@) == links[k],
        link_index(links, links[k].link_id@) == k,
{
    let id = links[k].link_id@;
    assert(link_ids(links)[k] == id);
    let i = choose|i: int| 0 <= i < links.len() && link_ids(links)[i] == id;
    assert(link_ids(links)[i] == id);
    if i < k {
        assert(link_ids(links)[i] != link_ids(links)[k]);
    } else if k < i {
        assert(link_ids(links)[k] != link_ids(links)[i]);
    }
}

/// The graph of nodes and links, and the bridges between live pipelines.
#[derive(Debug)]
pub struct NodeManager {
    pub started: bool,
    pub nodes: Vec<NodeRecord>,
    pub links: Vec<LinkRecord>,
    pub media_bridges: Vec<BridgeEntry>,
}

/// Why a link cannot be made, if it cannot.
pub open spec fn connect_error(
    m: NodeManager,
    link_id: Seq<char>,
    src_id: Seq<char>,
    sink_id: Seq<char>,
    audio: bool,
    video: bool,
    config: Option<Vec<Setting>>,
) -> Option<Seq<char>> {
    let ids = node_ids(m.nodes@);
    if !audio && !video {
        Some("Link with id "@ + link_id + " must have either audio or video enabled"@)
    } else if link_ids(m.links@).contains(link_id) {
        Some("A link already exists with id "@ + link_id)
    } else if !ids.contains(src_id) {
        Some("No producer with id "@ + src_id)
    } else if !ids.contains(sink_id) {
        Some("No consumer with id "@ + sink_id)
    } else if audio && !(node_of(m.nodes@, src_id).can_output(Medium::Audio) && node_of(m.nodes@, sink_id).can_input(Medium::Audio)) {
        Some("Link "@ + link_id + " requested audio, but source/sink capabilities do not match"@)
    } else if video && !(node_of(m.nodes@, src_id).can_output(Medium::Video) && node_of(m.nodes@, sink_id).can_input(Medium::Video)) {
        Some("Link "@ + link_id + " requested video, but source/sink capabilities do not match"@)
    } else {
        match node_of(m.nodes@, sink_id) {
            NodeRecord::Destination(d) => connect_input_error(d, audio, video),
            NodeRecord::Mixer(_) => match config {
                Some(cfg) => slot_config_error(cfg@, link_id, audio, video),
                None => None,
            },
            _ => Some("Node "@ + sink_id + " is not a consumer"@),
        }
    }
}

impl NodeManager {
    pub open spec fn wf(&self) -> bool {
        &&& distinct(node_ids(self.nodes@))
        &&& forall|i: int| 0 <= i < self.nodes.len() ==> #[trigger] self.nodes@[i].wf()
        &&& distinct(link_ids(self.links@))
        &&& forall|i: int| 0 <= i < self.links.len() ==> node_ids(self.nodes@).contains(#[trigger] self.links@[i].src_id@)
            && node_ids(self.nodes@).contains(self.links@[i].sink_id@)
        &&& forall|i: int, j: int| 0 <= i < j < self.media_bridges.len() ==> !(#[trigger] self.media_bridges@[i].src_id@
            == #[trigger] self.media_bridges@[j].src_id@ && self.media_bridges@[i].medium == self.media_bridges@[j].medium)
        &&& forall|i: int| 0 <= i < self.media_bridges.len() ==> #[trigger] self.media_bridges@[i].bridge.wf()
    }

    /// Nothing changed.
    pub open spec fn unchanged(&self, other: NodeManager) -> bool {
        &&& self.nodes@ == other.nodes@
        &&& self.links@ == other.links@
        &&& self.media_bridges@ == other.media_bridges@
        &&& self.started == other.started
    }

    /// The shape of the graph is the same: node for node, link for link.
    pub open spec fn same_graph(&self, other: NodeManager) -> bool {
        &&& self.nodes.len() == other.nodes.len()
        &&& forall|i: int| 0 <= i < self.nodes.len() ==> same_shape(other.nodes@[i], #[trigger] self.nodes@[i])
        &&& self.links@ == other.links@
    }

    pub fn new() -> (r: Self)
        ensures
            r.wf(),
            !r.started,
            r.nodes@.len() == 0,
            r.links@.len() == 0,
            r.media_bridges@.len() == 0,
    {
        NodeManager { started: false, nodes: Vec::new(), links: Vec::new(), media_bridges: Vec::new() }
    }

    fn find_node(&self, id: &String) -> (r: Option<usize>)
        requires
            self.wf(),
        ensures
            r matches Some(i) ==> i < self.nodes.len() && self.nodes@[i as int].id() == id@ && node_of(self.nodes@, id@) == self.nodes@[i as int],
            r is Some ==> node_ids(self.nodes@).contains(id@),
            r is None ==> !node_ids(self.nodes@).contains(id@),
    {
        let mut i: usize = 0;
        while i < self.nodes.len()
            invariant
                self.wf(),
                i <= self.nodes.len(),
                forall|j: int| 0 <= j < i ==> self.nodes@[j].id() != id@,
            decreases self.nodes.len() - i,
        {
            if *self.nodes[i].id_text() == *id {
                proof {
                    lemma_node_of(self.nodes@, i as int);
                    assert(node_ids(self.nodes@)[i as int] == id@);
                }
                return Some(i);
            }
            i = i + 1;
        }
        proof {
            if node_ids(self.nodes@).contains(id@) {
                let k = choose|k: int| 0 <= k < node_ids(self.nodes@).len() && node_ids(self.nodes@)[k] == id@;
                assert(self.nodes@[k].id() == id@);
            }
        }
        None
    }

    fn find_link(&self, id: &String) -> (r: Option<usize>)
        requires
            self.wf(),
        ensures
            r matches Some(i) ==> i < self.links.len() && self.links@[i as int].link_id@ == id@ && link_of(self.links@, id@) == self.links@[i as int]
                && link_index(self.links@, id@) == i,
            r is Some ==> link_ids(self.links@).contains(id@),
            r is None ==> !link_ids(self.links@).contains(id@),
    {
        let mut i: usize = 0;
        while i < self.links.len()
            invariant
                self.wf(),
                i <= self.links.len(),
                forall|j: int| 0 <= j < i ==> self.links@[j].link_id@ != id@,
            decreases self.links.len() - i,
        {
            if self.links[i].link_id == *id {
                proof {
                    lemma_link_of(self.links@, i as int);
                    assert(link_ids(self.links@)[i as int] == id@);
                }
                return Some(i);
            }
            i = i + 1;
        }
        proof {
            if link_ids(self.links@).contains(id@) {
                let k = choose|k: int| 0 <= k < link_ids(self.links@).len() && link_ids(self.links@)[k] == id@;
                assert(self.links@[k].link_id@ == id@);
            }
        }
        None
    }

    /// Adds a node under a fresh id.
    fn insert_node(&mut self, node: NodeRecord)
        requires
            old(self).wf(),
            node.wf(),
            !node_ids(old(self).nodes@).contains(node.id()),
        ensures
            final(self).wf(),
            final(self).nodes@ == old(self).nodes@.push(node),
            final(self).links == old(self).links,
            final(self).media_bridges == old(self).media_bridges,
            final(self).started == old(self).started,
    {
        let ghost before = self.nodes@;
        self.nodes.push(node);
        proof {
            assert(node_ids(self.nodes@) =~= node_ids(before).push(node.id()));
            assert forall|i: int| 0 <= i < self.links.len() implies node_ids(self.nodes@).contains(#[trigger] self.links@[i].src_id@)
                && node_ids(self.nodes@).contains(self.links@[i].sink_id@) by {
                let a = choose|a: int| 0 <= a < node_ids(before).len() && node_ids(before)[a] == self.links@[i].src_id@;
                assert(node_ids(self.nodes@)[a] == self.links@[i].src_id@);
                let b = choose|b: int| 0 <= b < node_ids(before).len() && node_ids(before)[b] == self.links@[i].sink_id@;
                assert(node_ids(self.nodes@)[b] == self.links@[i].sink_id@);
            }
            assert forall|i: int| 0 <= i < self.nodes.len() implies #[trigger] self.nodes@[i].wf() by {
                if i < before.len() {
                    assert(self.nodes@[i] == before[i]);
                }
            }
        }
    }

    fn has_node(&self, id: &String) -> (r: bool)
        requires
            self.wf(),
        ensures
            r == node_ids(self.nodes@).contains(id@),
    {
        self.find_node(id).is_some()
    }

    fn create_video_generator(&mut self, id: String) -> (r: CommandResult)
        requires
            old(self).wf(),
        ensures
            r is Success ==> final(self).nodes@ == old(self).nodes@.push(final(self).nodes@.last()) && created_node(final(self).nodes@.last(), Command::CreateVideoGenerator { id }),
            !(r is Success) ==> final(self).nodes@ == old(self).nodes@,
            final(self).media_bridges == old(self).media_bridges,
            final(self).links == old(self).links,
            final(self).started == old(self).started,
            final(self).wf(),
            node_ids(old(self).nodes@).contains(id@) ==> is_error(r, "A node already exists with id "@ + id@)
                && final(self).unchanged(*old(self)),
            !node_ids(old(self).nodes@).contains(id@) ==> r is Success && node_ids(final(self).nodes@) == node_ids(old(self).nodes@).push(id@)
                && final(self).links == old(self).links && final(self).nodes@.last() is VideoGenerator,
    {
        if self.has_node(&id) {
            return CommandResult::Error(join2("A node already exists with id ", id.as_str()));
        }
        let node = VideoGeneratorNode::new(id);
        let ghost before = self.nodes@;
        self.insert_node(NodeRecord::VideoGenerator(node));
        proof {
            assert(node_ids(self.nodes@) =~= node_ids(before).push(id@));
        }
        CommandResult::Success
    }

    fn create_source(&mut self, id: String, uri: String, audio: bool, video: bool) -> (r: CommandResult)
        requires
            old(self).wf(),
        ensures
            r is Success ==> final(self).nodes@ == old(self).nodes@.push(final(self).nodes@.last()) && created_node(final(self).nodes@.last(), Command::CreateSource { id, uri, audio, video }),
            !(r is Success) ==> final(self).nodes@ == old(self).nodes@,
            final(self).media_bridges == old(self).media_bridges,
            final(self).links == old(self).links,
            final(self).started == old(self).started,
            final(self).wf(),
            node_ids(old(self).nodes@).contains(id@) ==> is_error(r, "A node already exists with id "@ + id@)
                && final(self).unchanged(*old(self)),
            !node_ids(old(self).nodes@).contains(id@) && !audio && !video ==> is_error(
                r,
                "Source with id "@ + id@ + " must have either audio or video enabled"@,
            ) && final(self).unchanged(*old(self)),
            !node_ids(old(self).nodes@).contains(id@) && (audio || video) ==> r is Success && node_ids(final(self).nodes@)
                == node_ids(old(self).nodes@).push(id@) && final(self).links == old(self).links
                && final(self).nodes@.last() is Source,
    {
        if self.has_node(&id) {
            return CommandResult::Error(join2("A node already exists with id ", id.as_str()));
        }
        if !audio && !video {
            return CommandResult::Error(join3("Source with id ", id.as_str(), " must have either audio or video enabled"));
        }
        let node = SourceNode::new(id, uri, audio, video);
        let ghost before = self.nodes@;
        let ghost nid = node.id@;
        self.insert_node(NodeRecord::Source(node));
        proof {
            assert(node_ids(self.nodes@) =~= node_ids(before).push(nid));
        }
        CommandResult::Success
    }

    fn create_destination(&mut self, id: String, family: DestinationFamily, audio: bool, video: bool) -> (r: CommandResult)
        requires
            old(self).wf(),
        ensures
            r is Success ==> final(self).nodes@ == old(self).nodes@.push(final(self).nodes@.last()) && created_node(final(self).nodes@.last(), Command::CreateDestination { id, family, audio, video }),
            !(r is Success) ==> final(self).nodes@ == old(self).nodes@,
            final(self).media_bridges == old(self).media_bridges,
            final(self).links == old(self).links,
            final(self).started == old(self).started,
            final(self).wf(),
            node_ids(old(self).nodes@).contains(id@) ==> is_error(r, "A node already exists with id "@ + id@)
                && final(self).unchanged(*old(self)),
            !node_ids(old(self).nodes@).contains(id@) && !audio && !video ==> is_error(
                r,
                "Destination with id "@ + id@ + " must have either audio or video enabled"@,
            ) && final(self).unchanged(*old(self)),
            !node_ids(old(self).nodes@).contains(id@) && (audio || video) ==> r is Success && node_ids(final(self).nodes@)
                == node_ids(old(self).nodes@).push(id@) && final(self).links == old(self).links
                && final(self).nodes@.last() is Destination,
    {
        if self.has_node(&id) {
            return CommandResult::Error(join2("A node already exists with id ", id.as_str()));
        }
        if !audio && !video {
            return CommandResult::Error(join3("Destination with id ", id.as_str(), " must have either audio or video enabled"));
        }
        let node = DestinationNode::new(id, family, audio, video);
        let ghost before = self.nodes@;
        let ghost nid = node.id@;
        self.insert_node(NodeRecord::Destination(node));
        proof {
            assert(node_ids(self.nodes@) =~= node_ids(before).push(nid));
        }
        CommandResult::Success
    }

    fn create_mixer(&mut self, id: String, config: Option<Vec<Setting>>, audio: bool, video: bool) -> (r: CommandResult)
        requires
            old(self).wf(),
        ensures
            r is Success ==> final(self).nodes@ == old(self).nodes@.push(final(self).nodes@.last()) && created_node(final(self).nodes@.last(), Command::CreateMixer { id, config, audio, video }),
            !(r is Success) ==> final(self).nodes@ == old(self).nodes@,
            final(self).media_bridges == old(self).media_bridges,
            final(self).links == old(self).links,
            final(self).started == old(self).started,
            final(self).wf(),
            node_ids(old(self).nodes@).contains(id@) ==> is_error(r, "A node already exists with id "@ + id@)
                && final(self).unchanged(*old(self)),
            !node_ids(old(self).nodes@).contains(id@) && !audio && !video ==> is_error(
                r,
                "Mixer with id "@ + id@ + " must have either audio or video enabled"@,
            ) && final(self).unchanged(*old(self)),
            !node_ids(old(self).nodes@).contains(id@) && (audio || video) ==> match config {
                Some(cfg) => match crate::nodes::mixer::config_error(cfg@) {
                    Some(m) => is_error(r, m) && final(self).unchanged(*old(self)),
                    None => r is Success,
                },
                None => r is Success,
            },
            r is Success ==> node_ids(final(self).nodes@) == node_ids(old(self).nodes@).push(id@) && final(self).links
                == old(self).links && final(self).nodes@.last() is Mixer,
    {
        if self.has_node(&id) {
            return CommandResult::Error(join2("A node already exists with id ", id.as_str()));
        }
        if !audio && !video {
            return CommandResult::Error(join3("Mixer with id ", id.as_str(), " must have either audio or video enabled"));
        }
        let ghost gid = id@;
        let node = match MixerNode::new(id, config, audio, video) {
            Ok(node) => node,
            Err(e) => {
                return CommandResult::Error(e);
            },
        };
        let ghost before = self.nodes@;
        self.insert_node(NodeRecord::Mixer(node));
        proof {
            assert(node_ids(self.nodes@) =~= node_ids(before).push(gid));
        }
        CommandResult::Success
    }
}

proof fn lemma_update_node(nodes: Seq<NodeRecord>, links: Seq<LinkRecord>, j: int, n: NodeRecord)
    requires
        0 <= j < nodes.len(),
        same_kind(nodes[j], n),
        distinct(node_ids(nodes)),
        forall|i: int| 0 <= i < links.len() ==> node_ids(nodes).contains(#[trigger] links[i].src_id@) && node_ids(nodes).contains(links[i].sink_id@),
    ensures
        node_ids(nodes.update(j, n)) == node_ids(nodes),
        forall|i: int| 0 <= i < links.len() ==> node_ids(nodes.update(j, n)).contains(#[trigger] links[i].src_id@) && node_ids(nodes.update(j, n)).contains(links[i].sink_id@),
        forall|k: int| 0 <= k < nodes.len() && k != j ==> #[trigger] nodes.update(j, n)[k] == nodes[k],
{
    assert(node_ids(nodes.update(j, n)) =~= node_ids(nodes));
}

proof fn lemma_shape_is_kind(a: NodeRecord, b: NodeRecord)
    requires
        same_shape(a, b),
    ensures
        same_kind(a, b),
        a is Destination ==> connect_input_error(a->Destination_0, true, false) == connect_input_error(b->Destination_0, true, false)
            && start_error(a->Destination_0) == start_error(b->Destination_0),
{
}

impl NodeManager {
    /// Advances every node to `now`.
    pub fn refresh_nodes(&mut self, now: Timestamp)
        requires
            old(self).wf(),
        ensures
            final(self).wf(),
            final(self).same_graph(*old(self)),
            final(self).media_bridges == old(self).media_bridges,
            final(self).started == old(self).started,
            node_ids(final(self).nodes@) == node_ids(old(self).nodes@),
            nodes_refreshed(old(self).nodes@, final(self).nodes@, now as int),
    {
        let mut i: usize = 0;
        while i < self.nodes.len()
            invariant
                i <= self.nodes.len(),
                forall|k: int| 0 <= k < i ==> #[trigger] old(self).nodes@[k].refreshed_to(self.nodes@[k], now as int),
                self.wf(),
                self.nodes.len() == old(self).nodes.len(),
                self.links == old(self).links,
                self.media_bridges == old(self).media_bridges,
                self.started == old(self).started,
                node_ids(self.nodes@) == node_ids(old(self).nodes@),
                forall|k: int| 0 <= k < i ==> same_shape(old(self).nodes@[k], #[trigger] self.nodes@[k]),
                forall|k: int| i <= k < self.nodes.len() ==> #[trigger] self.nodes@[k] == old(self).nodes@[k],
            decreases self.nodes.len() - i,
        {
            let ghost before = self.nodes@;
            self.nodes[i].refresh(now);
            proof {
                lemma_shape_is_kind(before[i as int], self.nodes@[i as int]);
                lemma_update_node(before, self.links@, i as int, self.nodes@[i as int]);
                assert(self.nodes@ == before.update(i as int, self.nodes@[i as int]));
                assert forall|k: int| 0 <= k < self.nodes.len() implies #[trigger] self.nodes@[k].wf() by {
                    if k != i {
                        assert(self.nodes@[k] == before[k]);
                    }
                }
            }
            i = i + 1;
        }
    }

    fn find_bridge(&self, src_id: &String, medium: Medium) -> (r: Option<usize>)
        ensures
            r matches Some(i) ==> i < self.media_bridges.len() && self.media_bridges@[i as int].src_id@ == src_id@
                && self.media_bridges@[i as int].medium == medium,
            r is None ==> forall|i: int| 0 <= i < self.media_bridges.len() ==> !(#[trigger] self.media_bridges@[i].src_id@ == src_id@
                && self.media_bridges@[i].medium == medium),
    {
        let mut i: usize = 0;
        while i < self.media_bridges.len()
            invariant
                i <= self.media_bridges.len(),
                forall|k: int| 0 <= k < i ==> !(#[trigger] self.media_bridges@[k].src_id@ == src_id@ && self.media_bridges@[k].medium == medium),
            decreases self.media_bridges.len() - i,
        {
            if self.media_bridges[i].src_id == *src_id && self.media_bridges[i].medium == medium {
                return Some(i);
            }
            i = i + 1;
        }
        None
    }

    /// Unbinds `link_id` from the bridge of `src_id` for `medium`, dropping
    /// the bridge once it has no consumer left.
    #[verifier::rlimit(40)]
    fn remove_bridge_consumer(&mut self, src_id: &String, link_id: &String, medium: Medium)
        requires
            old(self).wf(),
        ensures
            final(self).wf(),
            final(self).nodes == old(self).nodes,
            final(self).links == old(self).links,
            final(self).started == old(self).started,
            forall|i: int| 0 <= i < final(self).media_bridges.len() ==> bridge_srcs(old(self).media_bridges@).contains(#[trigger] final(self).media_bridges@[i].src_id@),
    {
        let ghost n0 = self.nodes@;
        let ghost l0 = self.links@;
        match self.find_bridge(src_id, medium) {
            Some(i) => {
                let ghost before = self.media_bridges@;
                assert(forall|a: int| 0 <= a < before.len() ==> #[trigger] before[a].bridge.wf());
                let mut entry = BridgeEntry { src_id: String::new(), medium, bridge: StreamBridge::new() };
                std::mem::swap(&mut entry, &mut self.media_bridges[i]);
                assert(entry == before[i as int]);
                entry.bridge.remove_consumer(link_id);
                if entry.bridge.has_consumers() {
                    let ghost e = entry;
                    self.media_bridges.set(i, entry);
                    proof {
                        assert(self.media_bridges@ == before.update(i as int, e));
                        assert(e.src_id == before[i as int].src_id && e.medium == before[i as int].medium);
                        assert forall|a: int, b: int| 0 <= a < b < self.media_bridges.len() implies !(#[trigger] self.media_bridges@[a].src_id@
                            == #[trigger] self.media_bridges@[b].src_id@ && self.media_bridges@[a].medium == self.media_bridges@[b].medium) by {
                            assert(self.media_bridges@[a].src_id == before[a].src_id && self.media_bridges@[a].medium == before[a].medium);
                            assert(self.media_bridges@[b].src_id == before[b].src_id && self.media_bridges@[b].medium == before[b].medium);
                        }
                        assert forall|a: int| 0 <= a < self.media_bridges.len() implies #[trigger] self.media_bridges@[a].bridge.wf() by {
                            if a != i {
                                assert(self.media_bridges@[a] == before[a]);
                            }
                        }
                        assert forall|a: int| 0 <= a < self.media_bridges.len() implies bridge_srcs(before).contains(#[trigger] self.media_bridges@[a].src_id@) by {
                            assert(bridge_srcs(before)[a] == self.media_bridges@[a].src_id@);
                        }
                    }
                } else {
                    entry.bridge.clear();
                    self.media_bridges.remove(i);
                    proof {
                        assert(self.media_bridges@ =~= before.remove(i as int));
                        assert forall|a: int| 0 <= a < self.media_bridges.len() implies bridge_srcs(before).contains(#[trigger] self.media_bridges@[a].src_id@) by {
                            if a < i {
                                assert(bridge_srcs(before)[a] == self.media_bridges@[a].src_id@);
                            } else {
                                assert(bridge_srcs(before)[a + 1] == self.media_bridges@[a].src_id@);
                            }
                        }
                        assert forall|a: int, b: int| 0 <= a < b < self.media_bridges.len() implies !(#[trigger] self.media_bridges@[a].src_id@
                            == #[trigger] self.media_bridges@[b].src_id@ && self.media_bridges@[a].medium == self.media_bridges@[b].medium) by {
                            let a2 = if a < i { a } else { a + 1 };
                            let b2 = if b < i { b } else { b + 1 };
                            assert(self.media_bridges@[a] == before[a2]);
                            assert(self.media_bridges@[b] == before[b2]);
                        }
                        assert forall|a: int| 0 <= a < self.media_bridges.len() implies #[trigger] self.media_bridges@[a].bridge.wf() by {
                            if a < i {
                                assert(self.media_bridges@[a] == before[a]);
                            } else {
                                assert(self.media_bridges@[a] == before[a + 1]);
                            }
                        }
                    }
                }
            },
            None => {
                proof {
                    assert forall|a: int| 0 <= a < self.media_bridges.len() implies bridge_srcs(self.media_bridges@).contains(#[trigger] self.media_bridges@[a].src_id@) by {
                        assert(bridge_srcs(self.media_bridges@)[a] == self.media_bridges@[a].src_id@);
                    }
                }
            },
        }
        proof {
            assert(self.nodes@ == n0);
            assert(self.links@ == l0);
            assert(distinct(node_ids(self.nodes@)));
            assert(distinct(link_ids(self.links@)));
            assert(forall|i: int| 0 <= i < self.nodes.len() ==> #[trigger] self.nodes@[i].wf());
            assert(forall|i: int| 0 <= i < self.links.len() ==> node_ids(self.nodes@).contains(#[trigger] self.links@[i].src_id@)
                && node_ids(self.nodes@).contains(self.links@[i].sink_id@));
            assert(forall|i: int| 0 <= i < self.media_bridges.len() ==> #[trigger] self.media_bridges@[i].bridge.wf());
        }
    }
}

impl NodeManager {
    /// Node `j` changed without changing its kind.
    proof fn lemma_node_changed(&self, before: Seq<NodeRecord>, j: int)
        requires
            0 <= j < before.len(),
            self.nodes@ == before.update(j, self.nodes@[j]),
            same_kind(before[j], self.nodes@[j]),
            self.nodes@[j].wf(),
            distinct(node_ids(before)),
            forall|i: int| 0 <= i < before.len() ==> #[trigger] before[i].wf(),
            forall|i: int| 0 <= i < self.links.len() ==> node_ids(before).contains(#[trigger] self.links@[i].src_id@) && node_ids(before).contains(self.links@[i].sink_id@),
        ensures
            node_ids(self.nodes@) == node_ids(before),
            distinct(node_ids(self.nodes@)),
            forall|i: int| 0 <= i < self.nodes.len() ==> #[trigger] self.nodes@[i].wf(),
            forall|i: int| 0 <= i < self.links.len() ==> node_ids(self.nodes@).contains(#[trigger] self.links@[i].src_id@) && node_ids(self.nodes@).contains(self.links@[i].sink_id@),
            forall|k: int| 0 <= k < before.len() && k != j ==> #[trigger] self.nodes@[k] == before[k],
    {
        lemma_update_node(before, self.links@, j, self.nodes@[j]);
        assert forall|i: int| 0 <= i < self.nodes.len() implies #[trigger] self.nodes@[i].wf() by {
            if i != j {
                assert(self.nodes@[i] == before[i]);
            }
        }
    }

    /// Unbinds a link from the bridges it feeds.
    fn unbind_link(&mut self, link: &LinkRecord)
        requires
            old(self).wf(),
        ensures
            final(self).wf(),
            final(self).links == old(self).links,
            final(self).nodes == old(self).nodes,
            final(self).started == old(self).started,
            forall|i: int| 0 <= i < final(self).media_bridges.len() ==> bridge_srcs(old(self).media_bridges@).contains(#[trigger] final(self).media_bridges@[i].src_id@),
    {
        let ghost b0 = self.media_bridges@;
        if link.audio {
            self.remove_bridge_consumer(&link.src_id, &link.link_id, Medium::Audio);
        } else {
            proof {
                assert forall|i: int| 0 <= i < self.media_bridges.len() implies bridge_srcs(b0).contains(#[trigger] self.media_bridges@[i].src_id@) by {
                    assert(bridge_srcs(b0)[i] == self.media_bridges@[i].src_id@);
                }
            }
        }
        let ghost b1 = self.media_bridges@;
        if link.video {
            self.remove_bridge_consumer(&link.src_id, &link.link_id, Medium::Video);
            proof {
                assert forall|i: int| 0 <= i < self.media_bridges.len() implies bridge_srcs(b0).contains(#[trigger] self.media_bridges@[i].src_id@) by {
                    let x = self.media_bridges@[i].src_id@;
                    assert(bridge_srcs(b1).contains(x));
                    let k = choose|k: int| 0 <= k < bridge_srcs(b1).len() && bridge_srcs(b1)[k] == x;
                    assert(b1[k].src_id@ == x);
                    assert(bridge_srcs(b0).contains(b1[k].src_id@));
                }
            }
        }
    }

    /// Drops a link from its producer's consumer lists.
    fn release_src(&mut self, link: &LinkRecord)
        requires
            old(self).wf(),
        ensures
            nothing_gained(old(self).nodes@, final(self).nodes@),
            forall|i: int| 0 <= i < final(self).nodes.len() && #[trigger] final(self).nodes@[i].id() == link.src_id@ ==> !lists(final(self).nodes@[i], link.link_id@),
            final(self).wf(),
            final(self).links == old(self).links,
            final(self).media_bridges == old(self).media_bridges,
            final(self).started == old(self).started,
            final(self).nodes.len() == old(self).nodes.len(),
            node_ids(final(self).nodes@) == node_ids(old(self).nodes@),
            forall|i: int| 0 <= i < final(self).nodes.len() ==> same_kind(old(self).nodes@[i], #[trigger] final(self).nodes@[i]),
    {
        let ghost n0 = self.nodes@;
        match self.find_node(&link.src_id) {
            Some(j) => {
                assert(self.nodes@[j as int].wf());
                self.nodes[j].remove_consumer_link(&link.link_id);
                proof {
                    assert(self.nodes@ == n0.update(j as int, self.nodes@[j as int]));
                    self.lemma_node_changed(n0, j as int);
                    lemma_src_release(n0[j as int], self.nodes@[j as int], link.link_id@);
                    assert forall|i: int| 0 <= i < self.nodes.len() && #[trigger] self.nodes@[i].id() == link.src_id@ implies !lists(self.nodes@[i], link.link_id@) by {
                        if i != j {
                            assert(node_ids(self.nodes@)[i] == node_ids(self.nodes@)[j as int]);
                        }
                    }
                }
            },
            None => {
                proof {
                    assert forall|i: int| 0 <= i < self.nodes.len() implies same_kind(n0[i], #[trigger] self.nodes@[i]) by {}
                    assert forall|i: int| 0 <= i < self.nodes.len() && #[trigger] self.nodes@[i].id() == link.src_id@ implies !lists(self.nodes@[i], link.link_id@) by {
                        assert(node_ids(self.nodes@)[i] == link.src_id@);
                    }
                }
            },
        }
    }

    /// Frees the consumer's slot that a link held.
    fn release_sink(&mut self, link: &LinkRecord)
        requires
            old(self).wf(),
        ensures
            nothing_gained(old(self).nodes@, final(self).nodes@),
            forall|i: int| 0 <= i < final(self).nodes.len() && #[trigger] final(self).nodes@[i].id() == link.sink_id@ ==> !slots_hold(final(self).nodes@[i], link.link_id@),
            final(self).wf(),
            final(self).links == old(self).links,
            final(self).media_bridges == old(self).media_bridges,
            final(self).started == old(self).started,
            final(self).nodes.len() == old(self).nodes.len(),
            node_ids(final(self).nodes@) == node_ids(old(self).nodes@),
            forall|i: int| 0 <= i < final(self).nodes.len() ==> same_kind(old(self).nodes@[i], #[trigger] final(self).nodes@[i]),
    {
        let ghost n1 = self.nodes@;
        match self.find_node(&link.sink_id) {
            Some(j) => {
                assert(self.nodes@[j as int].wf());
                match &mut self.nodes[j] {
                    NodeRecord::Destination(d) => d.disconnect_input(&link.link_id),
                    NodeRecord::Mixer(m) => m.disconnect_input_slot(&link.link_id),
                    _ => {},
                }
                proof {
                    assert(self.nodes@ == n1.update(j as int, self.nodes@[j as int]));
                    self.lemma_node_changed(n1, j as int);
                    lemma_sink_release(n1[j as int], self.nodes@[j as int], link.link_id@);
                    assert forall|i: int| 0 <= i < self.nodes.len() && #[trigger] self.nodes@[i].id() == link.sink_id@ implies !slots_hold(self.nodes@[i], link.link_id@) by {
                        if i != j {
                            assert(node_ids(self.nodes@)[i] == node_ids(self.nodes@)[j as int]);
                        }
                    }
                }
            },
            None => {
                proof {
                    assert forall|i: int| 0 <= i < self.nodes.len() implies same_kind(n1[i], #[trigger] self.nodes@[i]) by {}
                    assert forall|i: int| 0 <= i < self.nodes.len() && #[trigger] self.nodes@[i].id() == link.sink_id@ implies !slots_hold(self.nodes@[i], link.link_id@) by {
                        assert(node_ids(self.nodes@)[i] == link.sink_id@);
                    }
                }
            },
        }
    }

    /// Lets go of a link's bookkeeping on its two nodes: the producer's
    /// consumer list and the consumer's slot.
    fn release_link(&mut self, link: &LinkRecord)
        requires
            old(self).wf(),
        ensures
            nothing_gained(old(self).nodes@, final(self).nodes@),
            released_from(final(self).nodes@, *link),
            final(self).wf(),
            final(self).links == old(self).links,
            final(self).media_bridges == old(self).media_bridges,
            final(self).started == old(self).started,
            final(self).nodes.len() == old(self).nodes.len(),
            node_ids(final(self).nodes@) == node_ids(old(self).nodes@),
            forall|i: int| 0 <= i < final(self).nodes.len() ==> same_kind(old(self).nodes@[i], #[trigger] final(self).nodes@[i]),
    {
        let ghost n0 = self.nodes@;
        self.release_src(link);
        let ghost n1 = self.nodes@;
        self.release_sink(link);
        proof {
            assert forall|i: int| 0 <= i < self.nodes.len() implies same_kind(n0[i], #[trigger] self.nodes@[i]) by {
                assert(same_kind(n0[i], n1[i]));
                assert(same_kind(n1[i], self.nodes@[i]));
            }
            assert forall|i: int| 0 <= i < self.nodes.len() && #[trigger] self.nodes@[i].id() == link.src_id@ implies !lists(self.nodes@[i], link.link_id@) by {
                assert(same_kind(n1[i], self.nodes@[i]));
                assert(!lists(n1[i], link.link_id@));
            }
            assert forall|i: int, x: Seq<char>| 0 <= i < n0.len() && !lists(n0[i], x) implies !#[trigger] lists(self.nodes@[i], x) by {
                assert(!lists(n1[i], x));
            }
            assert forall|i: int, x: Seq<char>| 0 <= i < n0.len() && !slots_hold(n0[i], x) implies !#[trigger] slots_hold(self.nodes@[i], x) by {
                assert(!slots_hold(n1[i], x));
            }
        }
    }

    /// Makes a link; fails, changing nothing, as `connect_error` says.
    #[verifier::rlimit(60)]
    fn connect(&mut self, link_id: String, src_id: String, sink_id: String, audio: bool, video: bool, config: Option<Vec<Setting>>) -> (r: CommandResult)
        requires
            old(self).wf(),
        ensures
            r is Success ==> {
                &&& final(self).links@ == old(self).links@.push(final(self).links@.last())
                &&& final(self).links@.last().link_id@ == link_id@
                &&& final(self).links@.last().src_id@ == src_id@
                &&& final(self).links@.last().sink_id@ == sink_id@
                &&& final(self).links@.last().audio == audio
                &&& final(self).links@.last().video == video
                &&& final(self).links@.last().config == config
                &&& connected(final(self).nodes@, link_id@, src_id@, sink_id@, audio, video)
            },
            final(self).wf(),
            match connect_error(*old(self), link_id@, src_id@, sink_id@, audio, video, config) {
                Some(m) => is_error(r, m) && final(self).unchanged(*old(self)),
                None => r is Success && link_ids(final(self).links@) == link_ids(old(self).links@).push(link_id@)
                    && final(self).links@.last().src_id@ == src_id@ && final(self).links@.last().sink_id@ == sink_id@
                    && node_ids(final(self).nodes@) == node_ids(old(self).nodes@),
            },
            final(self).media_bridges == old(self).media_bridges,
            final(self).started == old(self).started,
            final(self).nodes.len() == old(self).nodes.len(),
            forall|i: int| 0 <= i < final(self).nodes.len() ==> same_kind(old(self).nodes@[i], #[trigger] final(self).nodes@[i]),
    {
        if !audio && !video {
            return CommandResult::Error(join3("Link with id ", link_id.as_str(), " must have either audio or video enabled"));
        }
        if self.find_link(&link_id).is_some() {
            return CommandResult::Error(join2("A link already exists with id ", link_id.as_str()));
        }
        let si = match self.find_node(&src_id) {
            Some(i) => i,
            None => {
                return CommandResult::Error(join2("No producer with id ", src_id.as_str()));
            },
        };
        let ki = match self.find_node(&sink_id) {
            Some(i) => i,
            None => {
                return CommandResult::Error(join2("No consumer with id ", sink_id.as_str()));
            },
        };
        if audio && (!self.nodes[si].can_output_medium(Medium::Audio) || !self.nodes[ki].can_input_medium(Medium::Audio)) {
            return CommandResult::Error(join3("Link ", link_id.as_str(), " requested audio, but source/sink capabilities do not match"));
        }
        if video && (!self.nodes[si].can_output_medium(Medium::Video) || !self.nodes[ki].can_input_medium(Medium::Video)) {
            return CommandResult::Error(join3("Link ", link_id.as_str(), " requested video, but source/sink capabilities do not match"));
        }
        let ghost n0 = self.nodes@;
        let slot_config = match &config {
            Some(c) => Some(crate::settings::clone_settings(c)),
            None => None,
        };
        assert(self.nodes@[ki as int].wf());
        assert(slot_config matches Some(c) ==> config matches Some(c2) && c@ == c2@);
        let update = match &mut self.nodes[ki] {
            NodeRecord::Destination(d) => d.connect_input(&link_id, audio, video),
            NodeRecord::Mixer(m) => m.connect_input_slot(&link_id, audio, video, slot_config),
            _ => Err(join3("Node ", sink_id.as_str(), " is not a consumer")),
        };
        proof {
            assert(self.nodes@ == n0.update(ki as int, self.nodes@[ki as int]));
            self.lemma_node_changed(n0, ki as int);
        }
        if let Err(e) = update {
            proof {
                assert(self.nodes@ =~= n0);
            }
            return CommandResult::Error(e);
        }
        let ghost n1 = self.nodes@;
        self.nodes[si].add_consumer_link(&link_id, audio, video);
        proof {
            assert(self.nodes@ == n1.update(si as int, self.nodes@[si as int]));
            self.lemma_node_changed(n1, si as int);
            assert forall|i: int| 0 <= i < self.nodes.len() implies same_kind(n0[i], #[trigger] self.nodes@[i]) by {
                assert(same_kind(n0[i], n1[i]));
            }
        }
        let ghost l0 = self.links@;
        let ghost lid = link_id@;
        proof {
            lemma_node_of(self.nodes@, ki as int);
            lemma_node_of(self.nodes@, si as int);
            if n1[ki as int] is Mixer {
                let mx = n1[ki as int]->Mixer_0;
                let jj = choose|jj: int| 0 <= jj < mx.slots.len() && #[trigger] mx.slots@[jj].slot_id@ == lid;
                assert(slot_ids(mx.slots@)[jj] == lid);
                assert(slot_ids(mx.slots@).contains(lid));
            }
            if si != ki {
                assert(self.nodes@[ki as int] == n1[ki as int]);
            } else {
                assert(same_shape(n1[ki as int], self.nodes@[ki as int]));
            }
            if n1[si as int].consumer_texts() is Some {
                let (a, v) = n1[si as int].consumer_texts()->0;
                if audio && !a.contains(lid) {
                    assert(a.push(lid)[a.len() as int] == lid);
                }
                if video && !v.contains(lid) {
                    assert(v.push(lid)[v.len() as int] == lid);
                }
            }
            assert(connected(self.nodes@, lid, src_id@, sink_id@, audio, video));
        }
        assert(l0 == old(self).links@);
        assert(forall|i: int| 0 <= i < l0.len() ==> node_ids(self.nodes@).contains(#[trigger] l0[i].src_id@)
            && node_ids(self.nodes@).contains(l0[i].sink_id@));
        self.links.push(LinkRecord { link_id, src_id, sink_id, audio, video, config });
        proof {
            assert(link_ids(self.links@) =~= link_ids(l0).push(lid));
            assert forall|i: int| 0 <= i < self.links.len() implies node_ids(self.nodes@).contains(#[trigger] self.links@[i].src_id@)
                && node_ids(self.nodes@).contains(self.links@[i].sink_id@) by {
                if i == l0.len() {
                    assert(node_ids(self.nodes@)[si as int] == self.links@[i].src_id@);
                    assert(node_ids(self.nodes@)[ki as int] == self.links@[i].sink_id@);
                } else {
                    assert(self.links@[i] == l0[i]);
                    assert(node_ids(self.nodes@).contains(l0[i].src_id@));
                    assert(node_ids(self.nodes@).contains(l0[i].sink_id@));
                }
            }
        }
        CommandResult::Success
    }
}

proof fn lemma_bridges_kept(b: Seq<BridgeEntry>)
    ensures
        forall|i: int| 0 <= i < b.len() ==> bridge_srcs(b).contains(#[trigger] b[i].src_id@),
{
    assert forall|i: int| 0 <= i < b.len() implies bridge_srcs(b).contains(#[trigger] b[i].src_id@) by {
        assert(bridge_srcs(b)[i] == b[i].src_id@);
    }
}

proof fn lemma_remove_keeps<T>(s: Seq<T>, i: int, x: T)
    requires
        0 <= i < s.len(),
        s.contains(x),
        s[i] != x,
    ensures
        s.remove(i).contains(x),
{
    let k = choose|k: int| 0 <= k < s.len() && s[k] == x;
    if k < i {
        assert(s.remove(i)[k] == x);
    } else {
        assert(s.remove(i)[k - 1] == x);
    }
}

proof fn lemma_remove_subset<T>(s: Seq<T>, i: int, x: T)
    requires
        0 <= i < s.len(),
        s.remove(i).contains(x),
    ensures
        s.contains(x),
{
    let k = choose|k: int| 0 <= k < s.remove(i).len() && s.remove(i)[k] == x;
    if k < i {
        assert(s[k] == x);
    } else {
        assert(s[k + 1] == x);
    }
}

impl NodeManager {
    /// Removes a link and lets go of its bookkeeping.
    fn disconnect(&mut self, link_id: &String) -> (r: CommandResult)
        requires
            old(self).wf(),
        ensures
            final(self).wf(),
            !link_ids(old(self).links@).contains(link_id@) ==> is_error(r, "No link with id "@ + link_id@) && final(self).unchanged(*old(self)),
            link_ids(old(self).links@).contains(link_id@) ==> r is Success
                && final(self).links@ == old(self).links@.remove(link_index(old(self).links@, link_id@)),
            node_ids(final(self).nodes@) == node_ids(old(self).nodes@),
            final(self).nodes.len() == old(self).nodes.len(),
            forall|i: int| 0 <= i < final(self).nodes.len() ==> same_kind(old(self).nodes@[i], #[trigger] final(self).nodes@[i]),
            forall|i: int| 0 <= i < final(self).media_bridges.len() ==> bridge_srcs(old(self).media_bridges@).contains(#[trigger] final(self).media_bridges@[i].src_id@),
            final(self).started == old(self).started,
    {
        let k = match self.find_link(link_id) {
            Some(k) => k,
            None => {
                proof {
                    lemma_bridges_kept(self.media_bridges@);
                }
                return CommandResult::Error(join2("No link with id ", link_id.as_str()));
            },
        };
        let ghost l0 = self.links@;
        let link = self.links.remove(k);
        proof {
            assert(self.links@ == l0.remove(k as int));
            assert(link_ids(self.links@) =~= link_ids(l0).remove(k as int));
            assert forall|a: int, b: int| 0 <= a < b < link_ids(self.links@).len() implies link_ids(self.links@)[a] != link_ids(self.links@)[b] by {
                let a2 = if a < k { a } else { a + 1 };
                let b2 = if b < k { b } else { b + 1 };
                assert(link_ids(l0)[a2] != link_ids(l0)[b2]);
            }
            assert forall|i: int| 0 <= i < self.links.len() implies node_ids(self.nodes@).contains(#[trigger] self.links@[i].src_id@)
                && node_ids(self.nodes@).contains(self.links@[i].sink_id@) by {
                let i2 = if i < k { i } else { i + 1 };
                assert(self.links@[i] == l0[i2]);
                assert(l0 == old(self).links@);
                assert(node_ids(self.nodes@).contains(old(self).links@[i2].src_id@));
            }
            assert(self.nodes == old(self).nodes);
            assert(self.media_bridges == old(self).media_bridges);
            assert(distinct(node_ids(self.nodes@)));
            assert(forall|i: int| 0 <= i < self.nodes.len() ==> #[trigger] self.nodes@[i].wf());
            assert(forall|i: int, j: int| 0 <= i < j < self.media_bridges.len() ==> !(#[trigger] self.media_bridges@[i].src_id@
                == #[trigger] self.media_bridges@[j].src_id@ && self.media_bridges@[i].medium == self.media_bridges@[j].medium));
            assert(forall|i: int| 0 <= i < self.media_bridges.len() ==> #[trigger] self.media_bridges@[i].bridge.wf());
            assert(self.wf());
        }
        self.unbind_link(&link);
        self.release_link(&link);
        CommandResult::Success
    }

    /// Drops every bridge that `id` feeds.
    fn purge_bridges(&mut self, id: &String)
        requires
            old(self).wf(),
        ensures
            final(self).wf(),
            final(self).nodes == old(self).nodes,
            final(self).links == old(self).links,
            final(self).started == old(self).started,
            forall|i: int| 0 <= i < final(self).media_bridges.len() ==> #[trigger] final(self).media_bridges@[i].src_id@ != id@,
            forall|i: int| 0 <= i < final(self).media_bridges.len() ==> bridge_srcs(old(self).media_bridges@).contains(#[trigger] final(self).media_bridges@[i].src_id@),
    {
        let mut kept: Vec<BridgeEntry> = Vec::new();
        let ghost b0 = self.media_bridges@;
        let mut i: usize = 0;
        while i < self.media_bridges.len()
            invariant
                b0 == old(self).media_bridges@,
                self.media_bridges.len() == b0.len(),
                i <= b0.len(),
                self.nodes == old(self).nodes,
                self.links == old(self).links,
                self.started == old(self).started,
                forall|c: int| i <= c < b0.len() ==> #[trigger] self.media_bridges@[c] == b0[c],
                forall|a: int| 0 <= a < kept.len() ==> #[trigger] kept@[a].src_id@ != id@,
                forall|a: int| 0 <= a < kept.len() ==> bridge_srcs(b0).contains(#[trigger] kept@[a].src_id@),
                forall|a: int| 0 <= a < kept.len() ==> #[trigger] kept@[a].bridge.wf(),
                forall|a: int, c: int| 0 <= a < kept.len() && i <= c < b0.len() ==> !(#[trigger] kept@[a].src_id@ == #[trigger] b0[c].src_id@
                    && kept@[a].medium == b0[c].medium),
                forall|a: int, b: int| 0 <= a < b < kept.len() ==> !(#[trigger] kept@[a].src_id@ == #[trigger] kept@[b].src_id@
                    && kept@[a].medium == kept@[b].medium),
                forall|c: int, d: int| 0 <= c < d < b0.len() ==> !(#[trigger] b0[c].src_id@ == #[trigger] b0[d].src_id@ && b0[c].medium == b0[d].medium),
                forall|c: int| 0 <= c < b0.len() ==> #[trigger] b0[c].bridge.wf(),
            decreases b0.len() - i,
        {
            let mut e = BridgeEntry { src_id: String::new(), medium: Medium::Audio, bridge: StreamBridge::new() };
            std::mem::swap(&mut e, &mut self.media_bridges[i]);
            proof {
                assert(e == b0[i as int]);
                assert(bridge_srcs(b0)[i as int] == e.src_id@);
            }
            if e.src_id != *id {
                kept.push(e);
            }
            i = i + 1;
        }
        self.media_bridges = kept;
    }

    /// Stops the node, drops every link that mentions it and every bridge it
    /// feeds, then deletes it.
    fn remove_node(&mut self, id: &String) -> (r: CommandResult)
        requires
            old(self).wf(),
        ensures
            final(self).wf(),
            !node_ids(old(self).nodes@).contains(id@) ==> is_error(r, "No node with id "@ + id@) && final(self).unchanged(*old(self)),
            node_ids(old(self).nodes@).contains(id@) ==> {
                &&& r is Success
                &&& !node_ids(final(self).nodes@).contains(id@)
                &&& forall|x: Seq<char>| x != id@ ==> (node_ids(final(self).nodes@).contains(x) == node_ids(old(self).nodes@).contains(x))
                &&& forall|i: int| 0 <= i < final(self).links.len() ==> !mentions(#[trigger] final(self).links@[i], id@)
                &&& forall|i: int| 0 <= i < old(self).links.len() && !mentions(#[trigger] old(self).links@[i], id@)
                    ==> final(self).links@.contains(old(self).links@[i])
                &&& forall|i: int| 0 <= i < final(self).media_bridges.len() ==> #[trigger] final(self).media_bridges@[i].src_id@ != id@
                &&& forall|k: int| 0 <= k < old(self).links.len() && mentions(#[trigger] old(self).links@[k], id@) ==> released_from(final(self).nodes@, old(self).links@[k])
            },
            final(self).started == old(self).started,
    {
        let j = match self.find_node(id) {
            Some(j) => j,
            None => {
                return CommandResult::Error(join2("No node with id ", id.as_str()));
            },
        };
        let ghost n0 = self.nodes@;
        assert(self.nodes@[j as int].wf());
        self.nodes[j].stop();
        proof {
            assert(self.nodes@ == n0.update(j as int, self.nodes@[j as int]));
            self.lemma_node_changed(n0, j as int);
        }
        let ghost l0 = self.links@;
        let ghost ids0 = node_ids(self.nodes@);
        let mut i: usize = 0;
        while i < self.links.len()
            invariant
                self.wf(),
                i <= self.links.len(),
                node_ids(self.nodes@) == ids0,
                ids0 == node_ids(n0),
                j < self.nodes.len(),
                self.nodes@[j as int].id() == id@,
                self.started == old(self).started,
                forall|k: int| 0 <= k < i ==> !mentions(#[trigger] self.links@[k], id@),
                forall|k: int| 0 <= k < l0.len() && !mentions(#[trigger] l0[k], id@) ==> self.links@.contains(l0[k]),
                forall|k: int| 0 <= k < l0.len() && mentions(#[trigger] l0[k], id@) && !self.links@.contains(l0[k])
                    ==> released_from(self.nodes@, l0[k]),
            decreases self.links.len() - i,
        {
            if self.links[i].src_id == *id || self.links[i].sink_id == *id {
                let ghost lb = self.links@;
                let link = self.links.remove(i);
                proof {
                    assert(self.links@ == lb.remove(i as int));
                    assert(link_ids(self.links@) =~= link_ids(lb).remove(i as int));
                    assert forall|a: int, b: int| 0 <= a < b < link_ids(self.links@).len() implies link_ids(self.links@)[a] != link_ids(self.links@)[b] by {
                        let a2 = if a < i { a } else { a + 1 };
                        let b2 = if b < i { b } else { b + 1 };
                        assert(link_ids(lb)[a2] != link_ids(lb)[b2]);
                    }
                    assert forall|a: int| 0 <= a < self.links.len() implies node_ids(self.nodes@).contains(#[trigger] self.links@[a].src_id@)
                        && node_ids(self.nodes@).contains(self.links@[a].sink_id@) by {
                        let a2 = if a < i { a } else { a + 1 };
                        assert(self.links@[a] == lb[a2]);
                    }
                    assert forall|k: int| 0 <= k < l0.len() && !mentions(#[trigger] l0[k], id@) implies self.links@.contains(l0[k]) by {
                        assert(lb.contains(l0[k]));
                        assert(lb[i as int] != l0[k]);
                        lemma_remove_keeps(lb, i as int, l0[k]);
                    }
                    assert forall|k: int| 0 <= k < i implies !mentions(#[trigger] self.links@[k], id@) by {
                        assert(self.links@[k] == lb[k]);
                    }
                }
                let ghost nb = self.nodes@;
                let ghost gl = link;
                self.unbind_link(&link);
                let ghost nc = self.nodes@;
                self.release_link(&link);
                proof {
                    assert(self.nodes@[j as int].id() == nb[j as int].id()) by {
                        assert(same_kind(nb[j as int], self.nodes@[j as int]));
                    }
                    assert(nc == nb);
                    assert(forall|a: int| 0 <= a < nc.len() ==> #[trigger] nc[a].id() == self.nodes@[a].id()) by {
                        assert forall|a: int| 0 <= a < nc.len() implies #[trigger] nc[a].id() == self.nodes@[a].id() by {
                            assert(same_kind(nc[a], self.nodes@[a]));
                        }
                    }
                    assert forall|k: int| 0 <= k < l0.len() && mentions(#[trigger] l0[k], id@) && !self.links@.contains(l0[k])
                        implies released_from(self.nodes@, l0[k]) by {
                        if l0[k] != gl {
                            if lb.contains(l0[k]) {
                                lemma_remove_keeps(lb, i as int, l0[k]);
                            }
                            assert(released_from(nb, l0[k]));
                            lemma_released_kept(nc, self.nodes@, l0[k]);
                        }
                    }
                }
            } else {
                i = i + 1;
            }
        }
        proof {
            assert forall|k: int| 0 <= k < l0.len() && mentions(#[trigger] l0[k], id@) implies !self.links@.contains(l0[k]) by {
                if self.links@.contains(l0[k]) {
                    let c = choose|c: int| 0 <= c < self.links.len() && self.links@[c] == l0[k];
                    assert(!mentions(self.links@[c], id@));
                }
            }
        }
        self.purge_bridges(id);
        let ghost n1 = self.nodes@;
        self.nodes.remove(j);
        proof {
            assert(l0 == old(self).links@);
            assert forall|k: int| 0 <= k < old(self).links.len() && mentions(#[trigger] old(self).links@[k], id@)
                implies released_from(self.nodes@, old(self).links@[k]) by {
                assert(released_from(n1, l0[k]));
                lemma_released_after_remove(n1, j as int, l0[k]);
            }
            assert(self.nodes@ == n1.remove(j as int));
            assert(node_ids(self.nodes@) =~= node_ids(n1).remove(j as int));
            assert(node_ids(n1)[j as int] == id@);
            assert forall|a: int, b: int| 0 <= a < b < node_ids(self.nodes@).len() implies node_ids(self.nodes@)[a] != node_ids(self.nodes@)[b] by {
                let a2 = if a < j { a } else { a + 1 };
                let b2 = if b < j { b } else { b + 1 };
                assert(node_ids(n1)[a2] != node_ids(n1)[b2]);
            }
            assert forall|a: int| 0 <= a < self.nodes.len() implies #[trigger] self.nodes@[a].wf() by {
                let a2 = if a < j { a } else { a + 1 };
                assert(self.nodes@[a] == n1[a2]);
            }
            assert forall|x: Seq<char>| x != id@ implies (node_ids(self.nodes@).contains(x) == node_ids(n1).contains(x)) by {
                if node_ids(n1).contains(x) {
                    lemma_remove_keeps(node_ids(n1), j as int, x);
                }
                if node_ids(self.nodes@).contains(x) {
                    lemma_remove_subset(node_ids(n1), j as int, x);
                }
            }
            if node_ids(self.nodes@).contains(id@) {
                let k = choose|k: int| 0 <= k < node_ids(self.nodes@).len() && node_ids(self.nodes@)[k] == id@;
                let k2 = if k < j { k } else { k + 1 };
                assert(node_ids(n1)[k2] == node_ids(n1)[j as int]);
            }
            assert forall|a: int| 0 <= a < self.links.len() implies node_ids(self.nodes@).contains(#[trigger] self.links@[a].src_id@)
                && node_ids(self.nodes@).contains(self.links@[a].sink_id@) by {
                assert(!mentions(self.links@[a], id@));
                assert(node_ids(n1).contains(self.links@[a].src_id@));
                lemma_remove_keeps(node_ids(n1), j as int, self.links@[a].src_id@);
                lemma_remove_keeps(node_ids(n1), j as int, self.links@[a].sink_id@);
            }
            assert(node_ids(n1) == node_ids(old(self).nodes@));
        }
        CommandResult::Success
    }
}

/// What a control-point command does, by where it is routed: to the mixer
/// slot of a link, or to a mixer node.
pub open spec fn control_route_error(m: NodeManager, controllee_id: Seq<char>) -> Option<Seq<char>> {
    if link_ids(m.links@).contains(controllee_id) {
        let sink = link_of(m.links@, controllee_id).sink_id@;
        if node_of(m.nodes@, sink) is Mixer {
            None
        } else {
            Some("Slot control points are only supported for mixer links; "@ + sink + " is not a mixer"@)
        }
    } else if !node_ids(m.nodes@).contains(controllee_id) {
        Some("No node or slot with id "@ + controllee_id)
    } else if node_of(m.nodes@, controllee_id) is Mixer {
        None
    } else {
        Some("Node control points are currently supported only for mixers; "@ + controllee_id + " is not a mixer"@)
    }
}

impl NodeManager {
    /// Gives a node new times; a destination without its slots refuses, and
    /// the refusal is recorded as the node's last error.
    fn schedule_node(&mut self, id: &String, cue_time: Option<Timestamp>, end_time: Option<Timestamp>, now: Timestamp) -> (r: CommandResult)
        requires
            old(self).wf(),
        ensures
            schedule_effect(old(self).nodes@, final(self).nodes@, id@, cue_time, end_time, r, now as int),
            final(self).wf(),
            !node_ids(old(self).nodes@).contains(id@) ==> is_error(r, "No node with id "@ + id@) && final(self).unchanged(*old(self)),
            node_ids(old(self).nodes@).contains(id@) ==> match node_of(old(self).nodes@, id@) {
                NodeRecord::Destination(d) => match start_error(d) {
                    Some(m) => is_error(r, m),
                    None => r is Success,
                },
                _ => r is Success,
            },
            node_ids(final(self).nodes@) == node_ids(old(self).nodes@),
            final(self).links == old(self).links,
            final(self).media_bridges == old(self).media_bridges,
            final(self).started == old(self).started,
            final(self).nodes.len() == old(self).nodes.len(),
            forall|i: int| 0 <= i < final(self).nodes.len() ==> same_kind(old(self).nodes@[i], #[trigger] final(self).nodes@[i]),
    {
        let j = match self.find_node(id) {
            Some(j) => j,
            None => {
                return CommandResult::Error(join2("No node with id ", id.as_str()));
            },
        };
        let ghost n0 = self.nodes@;
        assert(self.nodes@[j as int].wf());
        let outcome = self.nodes[j].set_schedule(cue_time, end_time, now);
        proof {
            assert(self.nodes@ == n0.update(j as int, self.nodes@[j as int]));
            lemma_shape_is_kind(n0[j as int], self.nodes@[j as int]);
            self.lemma_node_changed(n0, j as int);
        }
        proof {
            lemma_node_of(self.nodes@, j as int);
        }
        match outcome {
            Ok(()) => CommandResult::Success,
            Err(e) => {
                let ghost n1 = self.nodes@;
                let message = e.clone();
                self.nodes[j].mark_error(e);
                proof {
                    assert(self.nodes@ == n1.update(j as int, self.nodes@[j as int]));
                    lemma_shape_is_kind(n1[j as int], self.nodes@[j as int]);
                    self.lemma_node_changed(n1, j as int);
                    assert forall|i: int| 0 <= i < self.nodes.len() implies same_kind(n0[i], #[trigger] self.nodes@[i]) by {
                        assert(same_kind(n0[i], n1[i]));
                    }
                    lemma_node_of(self.nodes@, j as int);
                }
                CommandResult::Error(message)
            },
        }
    }

    /// The info of one node, or of every node.
    fn get_info(&self, id: &Option<String>) -> (r: CommandResult)
        requires
            self.wf(),
        ensures
            id is Some && r is Info ==> node_of(self.nodes@, id->0@).info_matches(r->Info_0.nodes@[0].info),
            id is None ==> r is Info && forall|k: int| 0 <= k < self.nodes@.len() ==> #[trigger] self.nodes@[k].info_matches(r->Info_0.nodes@[k].info),
            match id {
                Some(i) => if node_ids(self.nodes@).contains(i@) {
                    r is Info && r->Info_0.nodes@.len() == 1 && r->Info_0.nodes@[0].id@ == i@
                } else {
                    is_error(r, "No node with id "@ + i@)
                },
                None => r is Info && r->Info_0.nodes@.len() == self.nodes@.len()
                    && forall|k: int| 0 <= k < self.nodes@.len() ==> #[trigger] r->Info_0.nodes@[k].id@ == node_ids(self.nodes@)[k],
            },
    {
        match id {
            Some(i) => {
                match self.find_node(i) {
                    Some(j) => {
                        assert(self.nodes@[j as int].wf());
                        let mut nodes: Vec<NodeEntry> = Vec::new();
                        nodes.push(NodeEntry { id: i.clone(), info: self.nodes[j].to_info() });
                        CommandResult::Info(Info { nodes })
                    },
                    None => CommandResult::Error(join2("No node with id ", i.as_str())),
                }
            },
            None => {
                let mut nodes: Vec<NodeEntry> = Vec::new();
                let mut k: usize = 0;
                while k < self.nodes.len()
                    invariant
                        self.wf(),
                        k <= self.nodes.len(),
                        nodes@.len() == k,
                        forall|a: int| 0 <= a < k ==> #[trigger] nodes@[a].id@ == node_ids(self.nodes@)[a],
                        forall|a: int| 0 <= a < k ==> #[trigger] self.nodes@[a].info_matches(nodes@[a].info),
                    decreases self.nodes.len() - k,
                {
                    assert(self.nodes@[k as int].wf());
                    let info = self.nodes[k].to_info();
                    let ghost n0 = nodes@;
                    nodes.push(NodeEntry { id: self.nodes[k].id_text().clone(), info });
                    proof {
                        assert forall|a: int| 0 <= a < k + 1 implies #[trigger] self.nodes@[a].info_matches(nodes@[a].info) by {
                            if a < k {
                                assert(nodes@[a] == n0[a]);
                            }
                        }
                        assert forall|a: int| 0 <= a < k + 1 implies #[trigger] nodes@[a].id@ == node_ids(self.nodes@)[a] by {
                            if a < k {
                                assert(nodes@[a] == n0[a]);
                            }
                        }
                    }
                    k = k + 1;
                }
                CommandResult::Info(Info { nodes })
            },
        }
    }

    /// Routes a control point to the mixer slot of a link, or to a mixer.
    fn add_control_point(&mut self, controllee_id: &String, property: &String, control_point: ControlPoint, now: Timestamp) -> (r: CommandResult)
        requires
            old(self).wf(),
        ensures
            point_added(*old(self), *final(self), controllee_id@, property@, control_point, r, now as int),
            final(self).wf(),
            match control_route_error(*old(self), controllee_id@) {
                Some(m) => is_error(r, m) && final(self).unchanged(*old(self)),
                None => if link_ids(old(self).links@).contains(controllee_id@) {
                    match node_of(old(self).nodes@, link_of(old(self).links@, controllee_id@).sink_id@) {
                        NodeRecord::Mixer(mx) => match slot_point_error(mx, controllee_id@, property@, control_point) {
                            Some(m) => is_error(r, m),
                            None => r is Success,
                        },
                        _ => false,
                    }
                } else {
                    r is Success ==> setting_error(property@, control_point.value) is None
                },
            },
            r is Success || r is Error,
            node_ids(final(self).nodes@) == node_ids(old(self).nodes@),
            final(self).links == old(self).links,
            final(self).media_bridges == old(self).media_bridges,
            final(self).started == old(self).started,
            final(self).nodes.len() == old(self).nodes.len(),
            forall|i: int| 0 <= i < final(self).nodes.len() ==> same_kind(old(self).nodes@[i], #[trigger] final(self).nodes@[i]),
    {
        let ghost n0 = self.nodes@;
        if let Some(k) = self.find_link(controllee_id) {
            let sink_id = &self.links[k].sink_id;
            let j = match self.find_node(sink_id) {
                Some(j) => j,
                None => {
                    proof {
                        assert(node_ids(self.nodes@).contains(self.links@[k as int].src_id@));
                    }
                    return CommandResult::Error(join4("No sink node with id ", sink_id.as_str(), " for link ", controllee_id.as_str()));
                },
            };
            assert(self.nodes@[j as int].wf());
            let is_mixer = match &self.nodes[j] {
                NodeRecord::Mixer(_) => true,
                _ => false,
            };
            if !is_mixer {
                return CommandResult::Error(join3("Slot control points are only supported for mixer links; ", sink_id.as_str(), " is not a mixer"));
            }
            let res = match &mut self.nodes[j] {
                NodeRecord::Mixer(mx) => mx.add_slot_control_point(controllee_id, property, control_point, now),
                _ => Ok(()),
            };
            proof {
                assert(self.nodes@ == n0.update(j as int, self.nodes@[j as int]));
                self.lemma_node_changed(n0, j as int);
                lemma_node_of(self.nodes@, j as int);
            }
            return match res {
                Ok(()) => CommandResult::Success,
                Err(e) => CommandResult::Error(e),
            };
        }
        let j = match self.find_node(controllee_id) {
            Some(j) => j,
            None => {
                return CommandResult::Error(join2("No node or slot with id ", controllee_id.as_str()));
            },
        };
        assert(self.nodes@[j as int].wf());
        let is_mixer = match &self.nodes[j] {
            NodeRecord::Mixer(_) => true,
            _ => false,
        };
        if !is_mixer {
            return CommandResult::Error(join3("Node control points are currently supported only for mixers; ", controllee_id.as_str(), " is not a mixer"));
        }
        let res = match &mut self.nodes[j] {
            NodeRecord::Mixer(mx) => mx.add_control_point(property, control_point, now),
            _ => Ok(()),
        };
        proof {
            assert(self.nodes@ == n0.update(j as int, self.nodes@[j as int]));
            self.lemma_node_changed(n0, j as int);
            lemma_node_of(self.nodes@, j as int);
        }
        match res {
            Ok(()) => CommandResult::Success,
            Err(e) => CommandResult::Error(e),
        }
    }

    /// Routes the removal of a control point like its addition; once routed
    /// it always succeeds.
    fn remove_control_point(&mut self, controller_id: &String, controllee_id: &String, property: &String, now: Timestamp) -> (r: CommandResult)
        requires
            old(self).wf(),
        ensures
            point_removed(*old(self), *final(self), controller_id@, controllee_id@, property@),
            final(self).wf(),
            match control_route_error(*old(self), controllee_id@) {
                Some(m) => is_error(r, m) && final(self).unchanged(*old(self)),
                None => r is Success,
            },
            node_ids(final(self).nodes@) == node_ids(old(self).nodes@),
            final(self).links == old(self).links,
            final(self).media_bridges == old(self).media_bridges,
            final(self).started == old(self).started,
            final(self).nodes.len() == old(self).nodes.len(),
            forall|i: int| 0 <= i < final(self).nodes.len() ==> same_kind(old(self).nodes@[i], #[trigger] final(self).nodes@[i]),
    {
        let ghost n0 = self.nodes@;
        if let Some(k) = self.find_link(controllee_id) {
            let sink_id = &self.links[k].sink_id;
            let j = match self.find_node(sink_id) {
                Some(j) => j,
                None => {
                    proof {
                        assert(node_ids(self.nodes@).contains(self.links@[k as int].src_id@));
                    }
                    return CommandResult::Error(join4("No sink node with id ", sink_id.as_str(), " for link ", controllee_id.as_str()));
                },
            };
            assert(self.nodes@[j as int].wf());
            let is_mixer = match &self.nodes[j] {
                NodeRecord::Mixer(_) => true,
                _ => false,
            };
            if !is_mixer {
                return CommandResult::Error(join3("Slot control points are only supported for mixer links; ", sink_id.as_str(), " is not a mixer"));
            }
            match &mut self.nodes[j] {
                NodeRecord::Mixer(mx) => mx.remove_slot_control_point(controller_id, controllee_id, property, now),
                _ => {},
            }
            proof {
                assert(self.nodes@ == n0.update(j as int, self.nodes@[j as int]));
                self.lemma_node_changed(n0, j as int);
                lemma_node_of(self.nodes@, j as int);
            }
            return CommandResult::Success;
        }
        let j = match self.find_node(controllee_id) {
            Some(j) => j,
            None => {
                return CommandResult::Error(join2("No node or slot with id ", controllee_id.as_str()));
            },
        };
        assert(self.nodes@[j as int].wf());
        let is_mixer = match &self.nodes[j] {
            NodeRecord::Mixer(_) => true,
            _ => false,
        };
        if !is_mixer {
            return CommandResult::Error(join3("Node control points are currently supported only for mixers; ", controllee_id.as_str(), " is not a mixer"));
        }
        match &mut self.nodes[j] {
            NodeRecord::Mixer(mx) => mx.remove_control_point(controller_id, property, now),
            _ => {},
        }
        proof {
            assert(self.nodes@ == n0.update(j as int, self.nodes@[j as int]));
            self.lemma_node_changed(n0, j as int);
            lemma_node_of(self.nodes@, j as int);
        }
        CommandResult::Success
    }
}

/// Every bridge left has a consumer.
pub open spec fn bridges_busy(b: Seq<BridgeEntry>) -> bool {
    forall|i: int| #![trigger b[i]] 0 <= i < b.len() ==> b[i].bridge.consumers@.len() > 0
}

/// The link carries `m`.
pub open spec fn carries(l: LinkRecord, m: Medium) -> bool {
    if m == Medium::Audio { l.audio } else { l.video }
}

/// The consumer of `l` is live and ingests `m`, so it takes samples of `m`
/// for `l`.
pub open spec fn consumes(nodes: Seq<NodeRecord>, l: LinkRecord, m: Medium) -> bool {
    node_ids(nodes).contains(l.sink_id@) && node_of(nodes, l.sink_id@).is_live() && node_of(nodes, l.sink_id@).can_input(m)
}

/// Some bridge of `l`'s producer for `m` has `l` as a consumer.
pub open spec fn bound(b: Seq<BridgeEntry>, l: LinkRecord, m: Medium) -> bool {
    exists|j: int| 0 <= j < b.len() && #[trigger] b[j].src_id@ == l.src_id@ && b[j].medium == m
        && texts(b[j].bridge.consumers@).contains(l.link_id@)
}

/// Some link from the bridge's producer carries the bridge's medium.
pub open spec fn fed_by_link(links: Seq<LinkRecord>, e: BridgeEntry) -> bool {
    exists|k: int| 0 <= k < links.len() && #[trigger] links[k].src_id@ == e.src_id@ && carries(links[k], e.medium)
}

/// Every bridge is fed by a link from its producer carrying its medium.
pub open spec fn bridges_fed(m: NodeManager) -> bool {
    forall|i: int| 0 <= i < m.media_bridges.len() ==> fed_by_link(m.links@, #[trigger] m.media_bridges@[i])
}

/// Every link's live consumer is bound, for each medium the link carries,
/// into the bridge of the link's producer for that medium.
pub open spec fn links_bound(m: NodeManager) -> bool {
    forall|k: int, med: Medium| 0 <= k < m.links.len() && carries(m.links@[k], med)
        && #[trigger] consumes(m.nodes@, m.links@[k], med) ==> bound(m.media_bridges@, m.links@[k], med)
}

pub open spec fn link_srcs(links: Seq<LinkRecord>) -> Seq<Seq<char>> {
    links.map_values(|l: LinkRecord| l.src_id@)
}

impl NodeManager {
    /// The bridge of `src_id` for `medium`, made if missing.
    fn ensure_bridge(&mut self, src_id: &String, medium: Medium) -> (r: usize)
        requires
            old(self).wf(),
        ensures
            final(self).wf(),
            r < final(self).media_bridges.len(),
            final(self).media_bridges@[r as int].src_id@ == src_id@,
            final(self).media_bridges@[r as int].medium == medium,
            final(self).media_bridges.len() >= old(self).media_bridges.len(),
            forall|i: int| 0 <= i < old(self).media_bridges.len() ==> #[trigger] final(self).media_bridges@[i] == old(self).media_bridges@[i],
            final(self).nodes == old(self).nodes,
            final(self).links == old(self).links,
            final(self).started == old(self).started,
            forall|i: int| 0 <= i < final(self).media_bridges.len() ==> bridge_srcs(old(self).media_bridges@).contains(#[trigger] final(self).media_bridges@[i].src_id@)
                || final(self).media_bridges@[i].src_id@ == src_id@,
    {
        proof {
            lemma_bridges_kept(self.media_bridges@);
        }
        match self.find_bridge(src_id, medium) {
            Some(i) => i,
            None => {
                let ghost b0 = self.media_bridges@;
                self.media_bridges.push(BridgeEntry { src_id: src_id.clone(), medium, bridge: StreamBridge::new() });
                proof {
                    assert forall|a: int| 0 <= a < self.media_bridges.len() implies #[trigger] self.media_bridges@[a].bridge.wf() by {
                        if a < b0.len() {
                            assert(self.media_bridges@[a] == b0[a]);
                        }
                    }
                    assert forall|a: int, b: int| 0 <= a < b < self.media_bridges.len() implies !(#[trigger] self.media_bridges@[a].src_id@
                        == #[trigger] self.media_bridges@[b].src_id@ && self.media_bridges@[a].medium == self.media_bridges@[b].medium) by {
                        assert(self.media_bridges@[a] == b0[a]);
                        if b < b0.len() {
                            assert(self.media_bridges@[b] == b0[b]);
                        }
                    }
                    assert forall|a: int| 0 <= a < self.media_bridges.len() implies bridge_srcs(b0).contains(#[trigger] self.media_bridges@[a].src_id@)
                        || self.media_bridges@[a].src_id@ == src_id@ by {
                        if a < b0.len() {
                            assert(bridge_srcs(b0)[a] == self.media_bridges@[a].src_id@);
                        }
                    }
                }
                (self.media_bridges.len() - 1) as usize
            },
        }
    }

    /// Binds or unbinds one medium of the link at `k`: the producer's sink is
    /// attached while the producer is live, and the link is a consumer while
    /// the consumer is live.
    fn sync_link_medium(&mut self, k: usize, medium: Medium)
        requires
            old(self).wf(),
            k < old(self).links.len(),
        ensures
            final(self).wf(),
            final(self).nodes == old(self).nodes,
            final(self).links == old(self).links,
            final(self).started == old(self).started,
            forall|i: int| 0 <= i < final(self).media_bridges.len() ==> bridge_srcs(old(self).media_bridges@).contains(#[trigger] final(self).media_bridges@[i].src_id@)
                || final(self).media_bridges@[i].src_id@ == old(self).links@[k as int].src_id@,
            consumes(old(self).nodes@, old(self).links@[k as int], medium) ==> bound(final(self).media_bridges@, old(self).links@[k as int], medium),
            forall|l: LinkRecord, m: Medium| (l.link_id@ != old(self).links@[k as int].link_id@ || m != medium)
                && #[trigger] bound(old(self).media_bridges@, l, m) ==> bound(final(self).media_bridges@, l, m),
    {
        let src_id = self.links[k].src_id.clone();
        let link_id = self.links[k].link_id.clone();
        let producing = match self.find_node(&src_id) {
            Some(j) => self.nodes[j].live() && self.nodes[j].can_output_medium(medium),
            None => false,
        };
        let consuming = match self.find_node(&self.links[k].sink_id) {
            Some(j) => self.nodes[j].live() && self.nodes[j].can_input_medium(medium),
            None => false,
        };
        assert(consuming == consumes(self.nodes@, self.links@[k as int], medium));
        let ghost bstart = self.media_bridges@;
        let ghost lk = self.links@[k as int];
        let b = self.ensure_bridge(&src_id, medium);
        let ghost b0 = self.media_bridges@;
        let mut entry = BridgeEntry { src_id: String::new(), medium, bridge: StreamBridge::new() };
        std::mem::swap(&mut entry, &mut self.media_bridges[b]);
        assert(entry == b0[b as int]);
        assert(entry.bridge.wf());
        if producing {
            entry.bridge.attach_sink(&src_id);
        }
        let ghost t0 = texts(entry.bridge.consumers@);
        if consuming {
            entry.bridge.add_consumer(&link_id);
        } else {
            entry.bridge.remove_consumer(&link_id);
        }
        let ghost e = entry;
        self.media_bridges.set(b, entry);
        proof {
            let bf = self.media_bridges@;
            assert(bf[b as int] == e);
            if consuming {
                if !t0.contains(lk.link_id@) {
                    assert(texts(e.bridge.consumers@)[t0.len() as int] == lk.link_id@);
                }
                assert(texts(bf[b as int].bridge.consumers@).contains(lk.link_id@));
                assert(e.src_id == b0[b as int].src_id);
                assert(bf[b as int].src_id@ == lk.src_id@);
                assert(bf[b as int].medium == medium);
                assert(bound(bf, lk, medium));
            }
            assert forall|l: LinkRecord, m: Medium| (l.link_id@ != lk.link_id@ || m != medium) && #[trigger] bound(bstart, l, m) implies bound(bf, l, m) by {
                let jj = choose|jj: int| 0 <= jj < bstart.len() && #[trigger] bstart[jj].src_id@ == l.src_id@ && bstart[jj].medium == m
                    && texts(bstart[jj].bridge.consumers@).contains(l.link_id@);
                assert(b0[jj] == bstart[jj]);
                if jj != b {
                    assert(bf[jj] == b0[jj]);
                } else {
                    assert(m == medium);
                    let t1 = texts(e.bridge.consumers@);
                    if consuming {
                        if !t0.contains(lk.link_id@) {
                            let c = choose|c: int| 0 <= c < t0.len() && t0[c] == l.link_id@;
                            assert(t1[c] == l.link_id@);
                        }
                    } else {
                        crate::media_bridge::lemma_filter_keeps(t0, lk.link_id@, l.link_id@);
                    }
                    assert(t1.contains(l.link_id@));
                }
                assert(bf[jj].src_id@ == l.src_id@ && bf[jj].medium == m && texts(bf[jj].bridge.consumers@).contains(l.link_id@));
            }
            assert(self.media_bridges@ == b0.update(b as int, e));
            assert forall|a: int| 0 <= a < self.media_bridges.len() implies #[trigger] self.media_bridges@[a].bridge.wf() by {
                if a != b {
                    assert(self.media_bridges@[a] == b0[a]);
                }
            }
            assert forall|a: int, c: int| 0 <= a < c < self.media_bridges.len() implies !(#[trigger] self.media_bridges@[a].src_id@
                == #[trigger] self.media_bridges@[c].src_id@ && self.media_bridges@[a].medium == self.media_bridges@[c].medium) by {
                assert(self.media_bridges@[a].src_id == b0[a].src_id && self.media_bridges@[a].medium == b0[a].medium);
                assert(self.media_bridges@[c].src_id == b0[c].src_id && self.media_bridges@[c].medium == b0[c].medium);
            }
            assert forall|a: int| 0 <= a < self.media_bridges.len() implies bridge_srcs(old(self).media_bridges@).contains(#[trigger] self.media_bridges@[a].src_id@)
                || self.media_bridges@[a].src_id@ == old(self).links@[k as int].src_id@ by {
                assert(self.media_bridges@[a].src_id == b0[a].src_id);
            }
            assert(distinct(node_ids(self.nodes@)));
            assert(distinct(link_ids(self.links@)));
            assert(forall|i: int| 0 <= i < self.nodes.len() ==> #[trigger] self.nodes@[i].wf());
            assert(forall|i: int| 0 <= i < self.links.len() ==> node_ids(self.nodes@).contains(#[trigger] self.links@[i].src_id@)
                && node_ids(self.nodes@).contains(self.links@[i].sink_id@));
        }
    }

    /// Whether some link from `src_id` carries `medium`.
    fn fed(&self, e: &BridgeEntry) -> (r: bool)
        ensures
            r == fed_by_link(self.links@, *e),
    {
        let mut k: usize = 0;
        while k < self.links.len()
            invariant
                k <= self.links.len(),
                forall|q: int| 0 <= q < k ==> !(#[trigger] self.links@[q].src_id@ == e.src_id@ && carries(self.links@[q], e.medium)),
            decreases self.links.len() - k,
        {
            let l = &self.links[k];
            let c = if e.medium == Medium::Audio { l.audio } else { l.video };
            if l.src_id == e.src_id && c {
                return true;
            }
            k = k + 1;
        }
        false
    }

    /// Drops, cleared, every bridge left without consumers or that no link
    /// feeds.
    fn drop_idle_bridges(&mut self)
        requires
            old(self).wf(),
        ensures
            forall|i: int| 0 <= i < final(self).media_bridges.len() ==> fed_by_link(final(self).links@, #[trigger] final(self).media_bridges@[i]),
            forall|l: LinkRecord, m: Medium| #[trigger] bound(old(self).media_bridges@, l, m) && old(self).links@.contains(l) && carries(l, m)
                ==> bound(final(self).media_bridges@, l, m),
            final(self).wf(),
            final(self).nodes == old(self).nodes,
            final(self).links == old(self).links,
            final(self).started == old(self).started,
            forall|i: int| #![trigger final(self).media_bridges@[i]] 0 <= i < final(self).media_bridges.len() ==> final(self).media_bridges@[i].bridge.consumers@.len() > 0,
            forall|i: int| 0 <= i < final(self).media_bridges.len() ==> bridge_srcs(old(self).media_bridges@).contains(#[trigger] final(self).media_bridges@[i].src_id@),
    {
        let mut kept: Vec<BridgeEntry> = Vec::new();
        let ghost b0 = self.media_bridges@;
        let mut i: usize = 0;
        while i < self.media_bridges.len()
            invariant
                b0 == old(self).media_bridges@,
                self.media_bridges.len() == b0.len(),
                i <= b0.len(),
                self.nodes == old(self).nodes,
                self.links == old(self).links,
                self.started == old(self).started,
                forall|c: int| i <= c < b0.len() ==> #[trigger] self.media_bridges@[c] == b0[c],
                forall|a: int| #![trigger kept@[a]] 0 <= a < kept.len() ==> kept@[a].bridge.consumers@.len() > 0,
                forall|a: int| 0 <= a < kept.len() ==> bridge_srcs(b0).contains(#[trigger] kept@[a].src_id@),
                forall|a: int| 0 <= a < kept.len() ==> #[trigger] kept@[a].bridge.wf(),
                forall|a: int, c: int| 0 <= a < kept.len() && i <= c < b0.len() ==> !(#[trigger] kept@[a].src_id@ == #[trigger] b0[c].src_id@
                    && kept@[a].medium == b0[c].medium),
                forall|a: int, b: int| 0 <= a < b < kept.len() ==> !(#[trigger] kept@[a].src_id@ == #[trigger] kept@[b].src_id@
                    && kept@[a].medium == kept@[b].medium),
                forall|c: int, d: int| 0 <= c < d < b0.len() ==> !(#[trigger] b0[c].src_id@ == #[trigger] b0[d].src_id@ && b0[c].medium == b0[d].medium),
                forall|c: int| 0 <= c < b0.len() ==> #[trigger] b0[c].bridge.wf(),
                forall|c: int| 0 <= c < i && b0[c].bridge.consumers@.len() > 0 && fed_by_link(self.links@, b0[c]) ==> kept@.contains(#[trigger] b0[c]),
                forall|a: int| 0 <= a < kept.len() ==> fed_by_link(self.links@, #[trigger] kept@[a]),
            decreases b0.len() - i,
        {
            let mut e = BridgeEntry { src_id: String::new(), medium: Medium::Audio, bridge: StreamBridge::new() };
            std::mem::swap(&mut e, &mut self.media_bridges[i]);
            proof {
                assert(e == b0[i as int]);
                assert(bridge_srcs(b0)[i as int] == e.src_id@);
            }
            let feeds = self.fed(&e);
            if e.bridge.has_consumers() && feeds {
                let ghost k0 = kept@;
                let ghost ge = e;
                assert(ge == b0[i as int]);
                assert(ge.bridge.consumers@.len() > 0);
                assert(forall|a: int| #![trigger k0[a]] 0 <= a < k0.len() ==> k0[a].bridge.consumers@.len() > 0);
                kept.push(e);
                proof {
                    assert(kept@[k0.len() as int] == ge);
                    assert forall|a: int| 0 <= a < kept.len() implies fed_by_link(self.links@, #[trigger] kept@[a]) by {
                        if a < k0.len() {
                            assert(kept@[a] == k0[a]);
                        }
                    }
                    assert forall|c: int| 0 <= c < i + 1 && b0[c].bridge.consumers@.len() > 0 && fed_by_link(self.links@, b0[c]) implies kept@.contains(#[trigger] b0[c]) by {
                        if c < i {
                            let d = choose|d: int| 0 <= d < k0.len() && k0[d] == b0[c];
                            assert(kept@[d] == b0[c]);
                        } else {
                            assert(kept@[k0.len() as int] == b0[c]);
                        }
                    }
                    assert forall|a: int| 0 <= a < kept.len() implies #[trigger] kept@[a].bridge.consumers@.len() > 0 by {
                        if a < k0.len() {
                            assert(kept@[a] == k0[a]);
                        }
                    }
                }
            } else {
                e.bridge.clear();
            }
            i = i + 1;
        }
        self.media_bridges = kept;
        proof {
            assert forall|l: LinkRecord, m: Medium| #[trigger] bound(b0, l, m) && old(self).links@.contains(l) && carries(l, m)
                implies bound(self.media_bridges@, l, m) by {
                let jj = choose|jj: int| 0 <= jj < b0.len() && #[trigger] b0[jj].src_id@ == l.src_id@ && b0[jj].medium == m
                    && texts(b0[jj].bridge.consumers@).contains(l.link_id@);
                assert(b0[jj].bridge.consumers@.len() > 0);
                let q = choose|q: int| 0 <= q < self.links@.len() && self.links@[q] == l;
                assert(self.links@[q].src_id@ == b0[jj].src_id@);
                assert(fed_by_link(self.links@, b0[jj]));
                assert(self.media_bridges@.contains(b0[jj]));
                let d = choose|d: int| 0 <= d < self.media_bridges@.len() && self.media_bridges@[d] == b0[jj];
                assert(self.media_bridges@[d].src_id@ == l.src_id@);
            }
        }
    }

    /// Brings the bridges in line with the links and the live pipelines.
    pub fn sync_media_links(&mut self)
        requires
            old(self).wf(),
        ensures
            final(self).wf(),
            final(self).nodes == old(self).nodes,
            final(self).links == old(self).links,
            final(self).started == old(self).started,
            forall|i: int| #![trigger final(self).media_bridges@[i]] 0 <= i < final(self).media_bridges.len() ==> final(self).media_bridges@[i].bridge.consumers@.len() > 0,
            forall|i: int| 0 <= i < final(self).media_bridges.len() ==> bridge_srcs(old(self).media_bridges@).contains(#[trigger] final(self).media_bridges@[i].src_id@)
                || link_srcs(old(self).links@).contains(final(self).media_bridges@[i].src_id@),
            forall|k: int, m: Medium| 0 <= k < old(self).links.len() && carries(old(self).links@[k], m)
                && #[trigger] consumes(old(self).nodes@, old(self).links@[k], m) ==> bound(final(self).media_bridges@, old(self).links@[k], m),
            forall|i: int| 0 <= i < final(self).media_bridges.len() ==> fed_by_link(final(self).links@, #[trigger] final(self).media_bridges@[i]),
    {
        proof {
            lemma_bridges_kept(self.media_bridges@);
        }
        let mut k: usize = 0;
        while k < self.links.len()
            invariant
                self.wf(),
                k <= self.links.len(),
                self.nodes == old(self).nodes,
                self.links == old(self).links,
                self.started == old(self).started,
                forall|i: int| 0 <= i < self.media_bridges.len() ==> bridge_srcs(old(self).media_bridges@).contains(#[trigger] self.media_bridges@[i].src_id@)
                    || link_srcs(old(self).links@).contains(self.media_bridges@[i].src_id@),
                forall|q: int, m: Medium| 0 <= q < k && carries(self.links@[q], m)
                    && #[trigger] consumes(self.nodes@, self.links@[q], m) ==> bound(self.media_bridges@, self.links@[q], m),
            decreases self.links.len() - k,
        {
            proof {
                assert(link_srcs(old(self).links@)[k as int] == self.links@[k as int].src_id@);
            }
            let ghost g0 = self.media_bridges@;
            if self.links[k].audio {
                self.sync_link_medium(k, Medium::Audio);
                proof {
                    assert forall|q: int, m: Medium| 0 <= q < k && carries(self.links@[q], m)
                        && #[trigger] consumes(self.nodes@, self.links@[q], m) implies bound(self.media_bridges@, self.links@[q], m) by {
                        assert(link_ids(self.links@)[q] != link_ids(self.links@)[k as int]);
                        assert(bound(g0, self.links@[q], m));
                    }
                }
                proof {
                    assert forall|i: int| 0 <= i < self.media_bridges.len() implies bridge_srcs(old(self).media_bridges@).contains(#[trigger] self.media_bridges@[i].src_id@)
                        || link_srcs(old(self).links@).contains(self.media_bridges@[i].src_id@) by {
                        let x = self.media_bridges@[i].src_id@;
                        if bridge_srcs(g0).contains(x) {
                            let c = choose|c: int| 0 <= c < bridge_srcs(g0).len() && bridge_srcs(g0)[c] == x;
                            assert(g0[c].src_id@ == x);
                        }
                    }
                }
            }
            let ghost g1 = self.media_bridges@;
            if self.links[k].video {
                self.sync_link_medium(k, Medium::Video);
                proof {
                    assert forall|q: int, m: Medium| 0 <= q < k && carries(self.links@[q], m)
                        && #[trigger] consumes(self.nodes@, self.links@[q], m) implies bound(self.media_bridges@, self.links@[q], m) by {
                        assert(link_ids(self.links@)[q] != link_ids(self.links@)[k as int]);
                        assert(bound(g1, self.links@[q], m));
                    }
                }
                proof {
                    if self.links@[k as int].audio && consumes(self.nodes@, self.links@[k as int], Medium::Audio) {
                        assert(bound(g1, self.links@[k as int], Medium::Audio));
                    }
                }
                proof {
                    assert forall|i: int| 0 <= i < self.media_bridges.len() implies bridge_srcs(old(self).media_bridges@).contains(#[trigger] self.media_bridges@[i].src_id@)
                        || link_srcs(old(self).links@).contains(self.media_bridges@[i].src_id@) by {
                        let x = self.media_bridges@[i].src_id@;
                        if bridge_srcs(g1).contains(x) {
                            let c = choose|c: int| 0 <= c < bridge_srcs(g1).len() && bridge_srcs(g1)[c] == x;
                            assert(g1[c].src_id@ == x);
                        }
                    }
                }
            }
            proof {
                assert forall|q: int, m: Medium| 0 <= q < k + 1 && carries(self.links@[q], m)
                    && #[trigger] consumes(self.nodes@, self.links@[q], m) implies bound(self.media_bridges@, self.links@[q], m) by {
                    if q < k {
                    } else {
                        if m == Medium::Audio {
                            assert(bound(g1, self.links@[q], m));
                        }
                    }
                }
            }
            k = k + 1;
        }
        let ghost g2 = self.media_bridges@;
        self.drop_idle_bridges();
        proof {
            assert forall|i: int| 0 <= i < self.media_bridges.len() implies bridge_srcs(old(self).media_bridges@).contains(#[trigger] self.media_bridges@[i].src_id@)
                || link_srcs(old(self).links@).contains(self.media_bridges@[i].src_id@) by {
                let x = self.media_bridges@[i].src_id@;
                let c = choose|c: int| 0 <= c < bridge_srcs(g2).len() && bridge_srcs(g2)[c] == x;
                assert(g2[c].src_id@ == x);
            }
            assert forall|k: int, m: Medium| 0 <= k < old(self).links.len() && carries(old(self).links@[k], m)
                && #[trigger] consumes(old(self).nodes@, old(self).links@[k], m) implies bound(self.media_bridges@, old(self).links@[k], m) by {
                assert(bound(g2, old(self).links@[k], m));
                assert(old(self).links@.contains(old(self).links@[k]));
            }
        }
    }
}

/// What a node-creating command does: it fails on a taken id, then on a
/// node with neither medium, and otherwise adds the node.
pub open spec fn create_outcome(ids: Seq<Seq<char>>, fids: Seq<Seq<char>>, id: Seq<char>, prefix: Seq<char>, audio: bool, video: bool, r: CommandResult) -> bool {
    if ids.contains(id) {
        is_error(r, "A node already exists with id "@ + id) && fids == ids
    } else if !audio && !video {
        is_error(r, prefix + id + " must have either audio or video enabled"@) && fids == ids
    } else {
        r is Success && fids == ids.push(id)
    }
}

/// What a command does to the graph `m`, with result `r` and final graph `f`.
pub open spec fn dispatch_outcome(m: NodeManager, cmd: Command, r: CommandResult, f: NodeManager) -> bool {
    let ids = node_ids(m.nodes@);
    let fids = node_ids(f.nodes@);
    match cmd {
        Command::CreateVideoGenerator { id } => f.links@ == m.links@ && create_outcome(ids, fids, id@, "Video generator with id "@, false, true, r),
        Command::CreateSource { id, uri, audio, video } => f.links@ == m.links@ && create_outcome(ids, fids, id@, "Source with id "@, audio, video, r),
        Command::CreateDestination { id, family, audio, video } => f.links@ == m.links@ && create_outcome(ids, fids, id@, "Destination with id "@, audio, video, r),
        Command::CreateMixer { id, config, audio, video } => f.links@ == m.links@ && if ids.contains(id@) || (!audio && !video) {
            create_outcome(ids, fids, id@, "Mixer with id "@, audio, video, r)
        } else {
            match config {
                Some(c) => match config_error(c@) {
                    Some(e) => is_error(r, e) && fids == ids,
                    None => r is Success && fids == ids.push(id@),
                },
                None => r is Success && fids == ids.push(id@),
            }
        },
        Command::Connect { link_id, src_id, sink_id, audio, video, config } => fids == ids && match connect_error(
            m,
            link_id@,
            src_id@,
            sink_id@,
            audio,
            video,
            config,
        ) {
            Some(e) => is_error(r, e) && f.links@ == m.links@,
            None => r is Success && link_ids(f.links@) == link_ids(m.links@).push(link_id@),
        },
        Command::Disconnect { link_id } => fids == ids && if !link_ids(m.links@).contains(link_id@) {
            is_error(r, "No link with id "@ + link_id@) && f.links@ == m.links@
        } else {
            r is Success && f.links@ == m.links@.remove(link_index(m.links@, link_id@))
        },
        Command::Start { id, cue_time, end_time } => fids == ids && f.links@ == m.links@ && schedule_outcome(m, id@, r),
        Command::Reschedule { id, cue_time, end_time } => fids == ids && f.links@ == m.links@ && schedule_outcome(m, id@, r),
        Command::Remove { id } => if !ids.contains(id@) {
            is_error(r, "No node with id "@ + id@) && fids == ids && f.links@ == m.links@
        } else {
            &&& r is Success
            &&& !fids.contains(id@)
            &&& forall|x: Seq<char>| x != id@ ==> (fids.contains(x) == ids.contains(x))
            &&& forall|i: int| 0 <= i < f.links.len() ==> !mentions(#[trigger] f.links@[i], id@)
            &&& forall|i: int| 0 <= i < m.links.len() && !mentions(#[trigger] m.links@[i], id@) ==> f.links@.contains(m.links@[i])
            &&& forall|i: int| 0 <= i < f.media_bridges.len() ==> #[trigger] f.media_bridges@[i].src_id@ != id@
        },
        Command::GetInfo { id } => fids == ids && f.links@ == m.links@ && match id {
            Some(i) => if ids.contains(i@) {
                r is Info && r->Info_0.nodes@.len() == 1 && r->Info_0.nodes@[0].id@ == i@
            } else {
                is_error(r, "No node with id "@ + i@)
            },
            None => r is Info && r->Info_0.nodes@.len() == ids.len() && forall|k: int| 0 <= k < ids.len() ==> #[trigger] r->Info_0.nodes@[k].id@ == ids[k],
        },
        Command::AddControlPoint { controllee_id, property, control_point } => fids == ids && f.links@ == m.links@
            && match control_route_error(m, controllee_id@) {
            Some(e) => is_error(r, e),
            None => if link_ids(m.links@).contains(controllee_id@) {
                match node_of(m.nodes@, link_of(m.links@, controllee_id@).sink_id@) {
                    NodeRecord::Mixer(mx) => match slot_point_error(mx, controllee_id@, property@, control_point) {
                        Some(e) => is_error(r, e),
                        None => r is Success,
                    },
                    _ => false,
                }
            } else {
                (r is Success || r is Error) && (r is Success ==> setting_error(property@, control_point.value) is None)
            },
        },
        Command::RemoveControlPoint { id, controllee_id, property } => fids == ids && f.links@ == m.links@
            && match control_route_error(m, controllee_id@) {
            Some(e) => is_error(r, e),
            None => r is Success,
        },
    }
}

/// A start or reschedule: fails on a missing node, or on a destination that
/// lacks a slot for an enabled medium.
pub open spec fn schedule_outcome(m: NodeManager, id: Seq<char>, r: CommandResult) -> bool {
    if !node_ids(m.nodes@).contains(id) {
        is_error(r, "No node with id "@ + id)
    } else {
        match node_of(m.nodes@, id) {
            NodeRecord::Destination(d) => match start_error(d) {
                Some(e) => is_error(r, e),
                None => r is Success,
            },
            _ => r is Success,
        }
    }
}

proof fn lemma_node_of_kept(m: NodeManager, mid: NodeManager, id: Seq<char>)
    requires
        m.wf(),
        mid.wf(),
        mid.same_graph(m),
        node_ids(mid.nodes@) == node_ids(m.nodes@),
        node_ids(m.nodes@).contains(id),
    ensures
        same_shape(node_of(m.nodes@, id), node_of(mid.nodes@, id)),
{
    let k = choose|k: int| 0 <= k < node_ids(m.nodes@).len() && node_ids(m.nodes@)[k] == id;
    assert(m.nodes@[k].id() == id);
    lemma_node_of(m.nodes@, k);
    assert(node_ids(mid.nodes@)[k] == id);
    assert(mid.nodes@[k].id() == id);
    lemma_node_of(mid.nodes@, k);
    assert(same_shape(m.nodes@[k], mid.nodes@[k]));
}

impl NodeManager {
    /// Carries out one command on a graph whose nodes are up to date.
    #[verifier::rlimit(80)]
    fn execute(&mut self, command: Command, now: Timestamp) -> (r: (CommandResult, bool))
        requires
            old(self).wf(),
        ensures
            final(self).wf(),
            dispatch_outcome(*old(self), command, r.0, *final(self)),
            r.1 == !(command is GetInfo),
            final(self).started == old(self).started,
            command_effect(*old(self), command, r.0, *final(self), now as int),
    {
        let ghost cmd = command;
        let ghost m = *self;
        let r = match command {
            Command::CreateVideoGenerator { id } => {
                let r = self.create_video_generator(id);
                assert(dispatch_outcome(m, cmd, r, *self));
                proof {
                    reveal(command_effect);
                }
                (r, true)
            },
            Command::CreateSource { id, uri, audio, video } => {
                let r = self.create_source(id, uri, audio, video);
                assert(dispatch_outcome(m, cmd, r, *self));
                proof {
                    reveal(command_effect);
                }
                (r, true)
            },
            Command::CreateDestination { id, family, audio, video } => {
                let r = self.create_destination(id, family, audio, video);
                assert(dispatch_outcome(m, cmd, r, *self));
                proof {
                    reveal(command_effect);
                }
                (r, true)
            },
            Command::CreateMixer { id, config, audio, video } => {
                let r = self.create_mixer(id, config, audio, video);
                assert(dispatch_outcome(m, cmd, r, *self));
                proof {
                    reveal(command_effect);
                }
                (r, true)
            },
            Command::Connect { link_id, src_id, sink_id, audio, video, config } => {
                let r = self.connect(link_id, src_id, sink_id, audio, video, config);
                assert(dispatch_outcome(m, cmd, r, *self));
                proof {
                    reveal(command_effect);
                }
                (r, true)
            },
            Command::Disconnect { link_id } => {
                let r = self.disconnect(&link_id);
                assert(dispatch_outcome(m, cmd, r, *self));
                proof {
                    reveal(command_effect);
                }
                (r, true)
            },
            Command::Start { id, cue_time, end_time } => {
                let r = self.schedule_node(&id, cue_time, end_time, now);
                assert(dispatch_outcome(m, cmd, r, *self));
                proof {
                    reveal(command_effect);
                }
                (r, true)
            },
            Command::Reschedule { id, cue_time, end_time } => {
                let r = self.schedule_node(&id, cue_time, end_time, now);
                assert(dispatch_outcome(m, cmd, r, *self));
                proof {
                    reveal(command_effect);
                }
                (r, true)
            },
            Command::Remove { id } => {
                let r = self.remove_node(&id);
                assert(dispatch_outcome(m, cmd, r, *self));
                proof {
                    reveal(command_effect);
                }
                (r, true)
            },
            Command::GetInfo { id } => {
                let r = self.get_info(&id);
                assert(dispatch_outcome(m, cmd, r, *self));
                proof {
                    reveal(command_effect);
                }
                (r, false)
            },
            Command::AddControlPoint { controllee_id, property, control_point } => {
                let r = self.add_control_point(&controllee_id, &property, control_point, now);
                assert(dispatch_outcome(m, cmd, r, *self));
                proof {
                    reveal(command_effect);
                }
                (r, true)
            },
            Command::RemoveControlPoint { id, controllee_id, property } => {
                let r = self.remove_control_point(&id, &controllee_id, &property, now);
                assert(dispatch_outcome(m, cmd, r, *self));
                proof {
                    reveal(command_effect);
                }
                (r, true)
            },
        };
        r
    }
}

proof fn lemma_outcome_kept(m: NodeManager, mid: NodeManager, cmd: Command, r: CommandResult, f: NodeManager)
    requires
        m.wf(),
        mid.wf(),
        mid.same_graph(m),
        node_ids(mid.nodes@) == node_ids(m.nodes@),
        dispatch_outcome(mid, cmd, r, f),
    ensures
        dispatch_outcome(m, cmd, r, f),
{
    assert(mid.links@ == m.links@);
    assert(link_ids(mid.links@) == link_ids(m.links@));
    match cmd {
        Command::Connect { link_id, src_id, sink_id, audio, video, config } => {
            if node_ids(m.nodes@).contains(src_id@) {
                lemma_node_of_kept(m, mid, src_id@);
            }
            if node_ids(m.nodes@).contains(sink_id@) {
                lemma_node_of_kept(m, mid, sink_id@);
            }
            assert(connect_error(m, link_id@, src_id@, sink_id@, audio, video, config) == connect_error(
                mid,
                link_id@,
                src_id@,
                sink_id@,
                audio,
                video,
                config,
            ));
        },
        Command::Start { id, cue_time, end_time } => {
            if node_ids(m.nodes@).contains(id@) {
                lemma_node_of_kept(m, mid, id@);
            }
        },
        Command::Reschedule { id, cue_time, end_time } => {
            if node_ids(m.nodes@).contains(id@) {
                lemma_node_of_kept(m, mid, id@);
            }
        },
        Command::AddControlPoint { controllee_id, property, control_point } => {
            if link_ids(m.links@).contains(controllee_id@) {
                let k = choose|k: int| 0 <= k < link_ids(m.links@).len() && link_ids(m.links@)[k] == controllee_id@;
                lemma_link_of(m.links@, k);
                let sink = link_of(m.links@, controllee_id@).sink_id@;
                assert(node_ids(m.nodes@).contains(m.links@[k].src_id@));
                lemma_node_of_kept(m, mid, sink);
            } else if node_ids(m.nodes@).contains(controllee_id@) {
                lemma_node_of_kept(m, mid, controllee_id@);
            }
            assert(control_route_error(m, controllee_id@) == control_route_error(mid, controllee_id@));
        },
        Command::RemoveControlPoint { id, controllee_id, property } => {
            if link_ids(m.links@).contains(controllee_id@) {
                let k = choose|k: int| 0 <= k < link_ids(m.links@).len() && link_ids(m.links@)[k] == controllee_id@;
                lemma_link_of(m.links@, k);
                let sink = link_of(m.links@, controllee_id@).sink_id@;
                assert(node_ids(m.nodes@).contains(m.links@[k].src_id@));
                lemma_node_of_kept(m, mid, sink);
            } else if node_ids(m.nodes@).contains(controllee_id@) {
                lemma_node_of_kept(m, mid, controllee_id@);
            }
            assert(control_route_error(m, controllee_id@) == control_route_error(mid, controllee_id@));
        },
        _ => {},
    }
}

proof fn lemma_outcome_after(m: NodeManager, cmd: Command, r: CommandResult, f: NodeManager, g: NodeManager)
    requires
        dispatch_outcome(m, cmd, r, f),
        node_ids(g.nodes@) == node_ids(f.nodes@),
        g.links@ == f.links@,
        forall|i: int| 0 <= i < g.media_bridges.len() ==> bridge_srcs(f.media_bridges@).contains(#[trigger] g.media_bridges@[i].src_id@)
            || link_srcs(f.links@).contains(g.media_bridges@[i].src_id@),
    ensures
        dispatch_outcome(m, cmd, r, g),
{
    match cmd {
        Command::Remove { id } => {
            if node_ids(m.nodes@).contains(id@) {
                assert forall|i: int| 0 <= i < g.media_bridges.len() implies #[trigger] g.media_bridges@[i].src_id@ != id@ by {
                    let x = g.media_bridges@[i].src_id@;
                    if bridge_srcs(f.media_bridges@).contains(x) {
                        let c = choose|c: int| 0 <= c < bridge_srcs(f.media_bridges@).len() && bridge_srcs(f.media_bridges@)[c] == x;
                        assert(f.media_bridges@[c].src_id@ == x);
                    } else {
                        let c = choose|c: int| 0 <= c < link_srcs(f.links@).len() && link_srcs(f.links@)[c] == x;
                        assert(f.links@[c].src_id@ == x);
                        assert(!mentions(f.links@[c], id@));
                    }
                }
            }
        },
        _ => {},
    }
}

impl NodeManager {
    /// Runs one command at `now`: brings every node up to date, applies the
    /// command, resynchronises the bridges unless it only asked for info, and
    /// brings every node up to date again.
    pub fn dispatch(&mut self, command: Command, now: Timestamp) -> (r: CommandResult)
        requires
            old(self).wf(),
        ensures
            final(self).wf(),
            final(self).started,
            dispatch_outcome(*old(self), command, r, *final(self)),
            exists|mid: NodeManager, g: NodeManager| #[trigger] dispatch_steps(*old(self), mid, g, *final(self), command, r, now as int),
    {
        self.started = true;
        let ghost m = *self;
        self.refresh_nodes(now);
        let ghost mid = *self;
        let ghost cmd = command;
        let (result, sync) = self.execute(command, now);
        let ghost f = *self;
        proof {
            lemma_outcome_kept(m, mid, cmd, result, f);
        }
        if sync {
            self.sync_media_links();
        } else {
            proof {
                lemma_bridges_kept(self.media_bridges@);
            }
        }
        let ghost g = *self;
        self.refresh_nodes(now);
        proof {
            lemma_outcome_after(m, cmd, result, f, *self);
            assert(g.nodes == f.nodes && g.links == f.links);
            assert(m.nodes == old(self).nodes && m.links == old(self).links);
            assert(dispatch_steps(*old(self), mid, f, *self, cmd, result, now as int));
        }
        result
    }


    /// Marks the graph as started and brings it up to date.
    pub fn start(&mut self, now: Timestamp)
        requires
            old(self).wf(),
        ensures
            final(self).wf(),
            final(self).started,
            node_ids(final(self).nodes@) == node_ids(old(self).nodes@),
            final(self).links@ == old(self).links@,
            nodes_refreshed(old(self).nodes@, final(self).nodes@, now as int),
            bridges_busy(final(self).media_bridges@),
            links_bound(*final(self)),
            bridges_fed(*final(self)),
    {
        self.started = true;
        self.refresh_nodes(now);
        self.sync_media_links();
    }

    /// Re-runs the schedule and bridge pass of a started graph.
    pub fn tick(&mut self, now: Timestamp)
        requires
            old(self).wf(),
        ensures
            final(self).wf(),
            final(self).started == old(self).started,
            node_ids(final(self).nodes@) == node_ids(old(self).nodes@),
            final(self).links@ == old(self).links@,
            old(self).started ==> nodes_refreshed(old(self).nodes@, final(self).nodes@, now as int)
                && bridges_busy(final(self).media_bridges@) && links_bound(*final(self)) && bridges_fed(*final(self)),
            !old(self).started ==> final(self).unchanged(*old(self)),
    {
        if !self.started {
            return;
        }
        self.refresh_nodes(now);
        self.sync_media_links();
    }

    /// Stops every node and clears the graph.
    pub fn shutdown(&mut self)
        requires
            old(self).wf(),
        ensures
            final(self).wf(),
            !final(self).started,
            final(self).nodes@.len() == 0,
            final(self).links@.len() == 0,
            final(self).media_bridges@.len() == 0,
    {
        self.started = false;
        let mut i: usize = 0;
        while i < self.nodes.len()
            invariant
                self.wf(),
                !self.started,
                i <= self.nodes.len(),
            decreases self.nodes.len() - i,
        {
            let ghost n0 = self.nodes@;
            assert(self.nodes@[i as int].wf());
            self.nodes[i].stop();
            proof {
                assert(self.nodes@ == n0.update(i as int, self.nodes@[i as int]));
                self.lemma_node_changed(n0, i as int);
            }
            i = i + 1;
        }
        self.nodes = Vec::new();
        self.links = Vec::new();
        let mut j: usize = 0;
        while j < self.media_bridges.len()
            invariant
                j <= self.media_bridges.len(),
                !self.started,
                self.nodes@.len() == 0,
                self.links@.len() == 0,
            decreases self.media_bridges.len() - j,
        {
            self.media_bridges[j].bridge.clear();
            j = j + 1;
        }
        self.media_bridges = Vec::new();
    }
}

/// Node ids are pairwise distinct, and so are link ids, in every graph that
/// `NodeManager::new` makes and every command keeps well formed.
pub proof fn law_ids_unique(m: NodeManager)
    requires
        m.wf(),
    ensures
        forall|i: int, j: int| 0 <= i < j < m.nodes.len() ==> m.nodes@[i].id() != m.nodes@[j].id(),
        forall|i: int, j: int| 0 <= i < j < m.links.len() ==> m.links@[i].link_id@ != m.links@[j].link_id@,
{
    assert forall|i: int, j: int| 0 <= i < j < m.nodes.len() implies m.nodes@[i].id() != m.nodes@[j].id() by {
        assert(node_ids(m.nodes@)[i] != node_ids(m.nodes@)[j]);
    }
    assert forall|i: int, j: int| 0 <= i < j < m.links.len() implies m.links@[i].link_id@ != m.links@[j].link_id@ by {
        assert(link_ids(m.links@)[i] != link_ids(m.links@)[j]);
    }
}

/// A link whose enabled media the producer cannot emit or the consumer
/// cannot ingest is refused, and the graph keeps its nodes and links.
pub proof fn law_capability_mismatch(m: NodeManager, cmd: Command, r: CommandResult, f: NodeManager, medium: Medium)
    requires
        m.wf(),
        dispatch_outcome(m, cmd, r, f),
        cmd is Connect,
        node_ids(m.nodes@).contains(cmd->Connect_src_id@),
        node_ids(m.nodes@).contains(cmd->Connect_sink_id@),
        !link_ids(m.links@).contains(cmd->Connect_link_id@),
        (medium == Medium::Audio && cmd->Connect_audio) || (medium == Medium::Video && cmd->Connect_video),
        !node_of(m.nodes@, cmd->Connect_src_id@).can_output(medium) || !node_of(m.nodes@, cmd->Connect_sink_id@).can_input(medium),
    ensures
        r is Error,
        node_ids(f.nodes@) == node_ids(m.nodes@),
        f.links@ == m.links@,
{
}

/// After a node is removed, no link mentions it and no bridge is fed by it.
pub proof fn law_remove_cascades(m: NodeManager, cmd: Command, r: CommandResult, f: NodeManager)
    requires
        dispatch_outcome(m, cmd, r, f),
        cmd is Remove,
        node_ids(m.nodes@).contains(cmd->Remove_id@),
    ensures
        r is Success,
        !node_ids(f.nodes@).contains(cmd->Remove_id@),
        forall|i: int| 0 <= i < f.links.len() ==> !mentions(#[trigger] f.links@[i], cmd->Remove_id@),
        forall|i: int| 0 <= i < f.media_bridges.len() ==> #[trigger] f.media_bridges@[i].src_id@ != cmd->Remove_id@,
{
}

} // verus!
