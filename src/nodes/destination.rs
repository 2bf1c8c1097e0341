//! A node that consumes at most one audio and one video slot and sends them
//! out in the shape its family names.
use crate::nodes::Timing;
use crate::protocol::{DestinationFamily, DestinationInfo, NodeInfo, State, Timestamp};
use crate::schedule::settle;
use crate::text::{join3, push_if, push_text_if, texts};
use vstd::prelude::*;

verus! {

#[derive(Clone, Copy, Debug, PartialEq, Eq, Structural)]
pub enum DestinationPipelineStage {
    Idle,
    Scheduled,
    Playing,
}

pub open spec fn destination_stage(s: State) -> DestinationPipelineStage {
    match s {
        State::Starting | State::Started => DestinationPipelineStage::Playing,
        _ => DestinationPipelineStage::Idle,
    }
}

fn destination_stage_for(s: State) -> (r: DestinationPipelineStage)
    ensures
        r == destination_stage(s),
{
    match s {
        State::Starting | State::Started => DestinationPipelineStage::Playing,
        _ => DestinationPipelineStage::Idle,
    }
}

/// The elements of a destination pipeline for a family, without those of a
/// disabled medium.
pub open spec fn destination_elements(f: DestinationFamily, a: bool, v: bool) -> Seq<Seq<char>> {
    let e = Seq::<Seq<char>>::empty();
    match f {
        DestinationFamily::Rtmp { .. } => push_if(push_if(push_if(push_if(push_if(push_if(push_if(push_if(
            push_if(push_if(push_if(e, true, "flvmux"@), true, "queue"@), true, "rtmp2sink"@), v, "videoconvert"@),
            true, "timecodestamper"@), true, "timeoverlay"@), v, "h264enc"@), v, "h264parse"@), a, "audioconvert"@),
            a, "audioresample"@), true, "avenc_aac"@),
        DestinationFamily::Udp { .. } => push_if(push_if(push_if(push_if(push_if(push_if(push_if(push_if(
            e, true, "mpegtsmux"@), true, "udpsink"@), v, "videoconvert"@), v, "h264enc"@), v, "h264parse"@),
            a, "audioconvert"@), a, "audioresample"@), true, "avenc_aac"@),
        DestinationFamily::LocalFile { .. } => push_if(push_if(push_if(push_if(push_if(push_if(push_if(push_if(
            e, true, "splitmuxsink"@), true, "multiqueue"@), v, "videoconvert"@), v, "h264enc"@), v, "h264parse"@),
            a, "audioconvert"@), a, "audioresample"@), true, "avenc_aac"@),
        DestinationFamily::LocalPlayback => push_if(push_if(push_if(push_if(push_if(push_if(
            e, v, "autovideosink"@), a, "autoaudiosink"@), v, "videoconvert"@), a, "audioconvert"@),
            a, "audioresample"@), true, "queue"@),
    }
}

/// What the live pipeline of a destination is built from.
#[derive(Debug, Clone)]
pub struct DestinationPipelineProfile {
    pub family: DestinationFamily,
    pub elements: Vec<String>,
    pub wait_for_eos_on_stop: bool,
    pub stage: DestinationPipelineStage,
}

impl DestinationPipelineProfile {
    pub fn from_family(family: &DestinationFamily, audio: bool, video: bool) -> (r: Self)
        ensures
            r.family == *family,
            texts(r.elements@) == destination_elements(*family, audio, video),
            r.wait_for_eos_on_stop,
            r.stage == DestinationPipelineStage::Idle,
    {
        let mut el: Vec<String> = Vec::new();
        match family {
            DestinationFamily::Rtmp { .. } => {
                push_text_if(&mut el, true, "flvmux");
                push_text_if(&mut el, true, "queue");
                push_text_if(&mut el, true, "rtmp2sink");
                push_text_if(&mut el, video, "videoconvert");
                push_text_if(&mut el, true, "timecodestamper");
                push_text_if(&mut el, true, "timeoverlay");
                push_text_if(&mut el, video, "h264enc");
                push_text_if(&mut el, video, "h264parse");
                push_text_if(&mut el, audio, "audioconvert");
                push_text_if(&mut el, audio, "audioresample");
                push_text_if(&mut el, true, "avenc_aac");
            },
            DestinationFamily::Udp { .. } => {
                push_text_if(&mut el, true, "mpegtsmux");
                push_text_if(&mut el, true, "udpsink");
                push_text_if(&mut el, video, "videoconvert");
                push_text_if(&mut el, video, "h264enc");
                push_text_if(&mut el, video, "h264parse");
                push_text_if(&mut el, audio, "audioconvert");
                push_text_if(&mut el, audio, "audioresample");
                push_text_if(&mut el, true, "avenc_aac");
            },
            DestinationFamily::LocalFile { .. } => {
                push_text_if(&mut el, true, "splitmuxsink");
                push_text_if(&mut el, true, "multiqueue");
                push_text_if(&mut el, video, "videoconvert");
                push_text_if(&mut el, video, "h264enc");
                push_text_if(&mut el, video, "h264parse");
                push_text_if(&mut el, audio, "audioconvert");
                push_text_if(&mut el, audio, "audioresample");
                push_text_if(&mut el, true, "avenc_aac");
            },
            DestinationFamily::LocalPlayback => {
                push_text_if(&mut el, video, "autovideosink");
                push_text_if(&mut el, audio, "autoaudiosink");
                push_text_if(&mut el, video, "videoconvert");
                push_text_if(&mut el, audio, "audioconvert");
                push_text_if(&mut el, audio, "audioresample");
                push_text_if(&mut el, true, "queue");
            },
        }
        DestinationPipelineProfile {
            family: family.clone(),
            elements: el,
            wait_for_eos_on_stop: true,
            stage: DestinationPipelineStage::Idle,
        }
    }
}

/// Why a destination cannot take a link, if it cannot.
pub open spec fn connect_input_error(d: DestinationNode, audio: bool, video: bool) -> Option<Seq<char>> {
    if audio && d.audio_slot_id is Some {
        Some("Destination "@ + d.id@ + " already has an audio input slot"@)
    } else if video && d.video_slot_id is Some {
        Some("Destination "@ + d.id@ + " already has a video input slot"@)
    } else {
        None
    }
}

/// Why a destination cannot start, if it cannot: every enabled medium needs
/// its slot.
pub open spec fn start_error(d: DestinationNode) -> Option<Seq<char>> {
    if d.audio_enabled && d.audio_slot_id is None {
        Some("Destination "@ + d.id@ + " must have its audio slot connected before starting"@)
    } else if d.video_enabled && d.video_slot_id is None {
        Some("Destination "@ + d.id@ + " must have its video slot connected before starting"@)
    } else {
        None
    }
}

/// The slot after `link_id` is let go.
pub open spec fn released(slot: Option<String>, link_id: Seq<char>) -> Option<String> {
    match slot {
        Some(s) => if s@ == link_id { None } else { Some(s) },
        None => None,
    }
}

#[derive(Debug, Clone)]
pub struct DestinationNode {
    pub id: String,
    pub family: DestinationFamily,
    pub audio_enabled: bool,
    pub video_enabled: bool,
    pub audio_slot_id: Option<String>,
    pub video_slot_id: Option<String>,
    pub timing: Timing,
    pub pipeline: Option<DestinationPipelineProfile>,
}

impl DestinationNode {
    pub open spec fn wf(&self) -> bool {
        self.pipeline matches Some(p) ==> p.stage == destination_stage(self.timing.state)
    }

    pub fn new(id: String, family: DestinationFamily, audio_enabled: bool, video_enabled: bool) -> (r: Self)
        ensures
            r.wf(),
            r.id == id,
            r.family == family,
            r.audio_enabled == audio_enabled,
            r.video_enabled == video_enabled,
            r.audio_slot_id is None,
            r.video_slot_id is None,
            r.timing == Timing::new_spec(),
    {
        DestinationNode {
            id,
            family,
            audio_enabled,
            video_enabled,
            audio_slot_id: None,
            video_slot_id: None,
            timing: Timing::new(),
            pipeline: None,
        }
    }

    /// Takes the transitions due at `now`; there is no preroll lead.
    pub fn refresh(&mut self, now: Timestamp)
        requires
            old(self).wf(),
        ensures
            final(self).wf(),
            final(self).id == old(self).id,
            final(self).audio_enabled == old(self).audio_enabled,
            final(self).video_enabled == old(self).video_enabled,
            final(self).audio_slot_id == old(self).audio_slot_id,
            final(self).video_slot_id == old(self).video_slot_id,
            final(self).timing.cue_time == old(self).timing.cue_time,
            final(self).timing.end_time == old(self).timing.end_time,
            final(self).timing.last_error == old(self).timing.last_error,
            final(self).timing.state == old(self).timing.advanced(now as int, false),
            final(self).timing.scheduled == old(self).timing.scheduled,
            final(self).family == old(self).family,
            (final(self).pipeline is Some) == (old(self).pipeline is Some),
    {
        self.timing.refresh(now, false);
        let stage = destination_stage_for(self.timing.state);
        if let Some(p) = &mut self.pipeline {
            p.stage = stage;
        }
    }

    /// Occupies the audio and/or video slot with `link_id`; fails, changing
    /// nothing, when a requested slot is taken.
    pub fn connect_input(&mut self, link_id: &String, audio: bool, video: bool) -> (r: Result<(), String>)
        requires
            old(self).wf(),
        ensures
            final(self).wf(),
            final(self).id == old(self).id,
            final(self).audio_enabled == old(self).audio_enabled,
            final(self).video_enabled == old(self).video_enabled,
            final(self).timing == old(self).timing,
            match connect_input_error(*old(self), audio, video) {
                Some(m) => r is Err && r->Err_0@ == m && *final(self) == *old(self),
                None => r is Ok
                    && final(self).audio_slot_id == (if audio { Some(*link_id) } else { old(self).audio_slot_id })
                    && final(self).video_slot_id == (if video { Some(*link_id) } else { old(self).video_slot_id }),
            },
    {
        if audio && self.audio_slot_id.is_some() {
            return Err(join3("Destination ", self.id.as_str(), " already has an audio input slot"));
        }
        if video && self.video_slot_id.is_some() {
            return Err(join3("Destination ", self.id.as_str(), " already has a video input slot"));
        }
        if audio {
            self.audio_slot_id = Some(link_id.clone());
        }
        if video {
            self.video_slot_id = Some(link_id.clone());
        }
        Ok(())
    }

    /// Frees each slot that `link_id` holds.
    pub fn disconnect_input(&mut self, link_id: &String)
        requires
            old(self).wf(),
        ensures
            final(self).wf(),
            final(self).id == old(self).id,
            final(self).audio_enabled == old(self).audio_enabled,
            final(self).video_enabled == old(self).video_enabled,
            final(self).timing == old(self).timing,
            final(self).audio_slot_id == released(old(self).audio_slot_id, link_id@),
            final(self).video_slot_id == released(old(self).video_slot_id, link_id@),
    {
        let drop_audio = match &self.audio_slot_id {
            Some(s) => *s == *link_id,
            None => false,
        };
        if drop_audio {
            self.audio_slot_id = None;
        }
        let drop_video = match &self.video_slot_id {
            Some(s) => *s == *link_id,
            None => false,
        };
        if drop_video {
            self.video_slot_id = None;
        }
    }

    fn ensure_start_ready(&self) -> (r: Result<(), String>)
        ensures
            match start_error(*self) {
                Some(m) => r is Err && r->Err_0@ == m,
                None => r is Ok,
            },
    {
        if self.audio_enabled && self.audio_slot_id.is_none() {
            return Err(join3("Destination ", self.id.as_str(), " must have its audio slot connected before starting"));
        }
        if self.video_enabled && self.video_slot_id.is_none() {
            return Err(join3("Destination ", self.id.as_str(), " must have its video slot connected before starting"));
        }
        Ok(())
    }

    /// Checks that every enabled medium has its slot, then sets the times,
    /// builds the family's profile and takes the transitions due at `now`.
    pub fn schedule(&mut self, cue_time: Option<Timestamp>, end_time: Option<Timestamp>, now: Timestamp) -> (r: Result<(), String>)
        requires
            old(self).wf(),
        ensures
            final(self).wf(),
            final(self).id == old(self).id,
            final(self).audio_enabled == old(self).audio_enabled,
            final(self).video_enabled == old(self).video_enabled,
            final(self).audio_slot_id == old(self).audio_slot_id,
            final(self).video_slot_id == old(self).video_slot_id,
            match start_error(*old(self)) {
                Some(m) => r is Err && r->Err_0@ == m && *final(self) == *old(self),
                None => r is Ok && final(self).timing.cue_time == cue_time && final(self).timing.end_time == end_time
                    && final(self).timing.last_error is None
                    && final(self).timing.state == settle(State::Initial, cue_time, end_time, now as int, false)
                    && final(self).timing.scheduled && final(self).pipeline is Some,
            },
            final(self).family == old(self).family,
    {
        self.ensure_start_ready()?;
        self.timing.reschedule(cue_time, end_time, now, false);
        let mut profile = DestinationPipelineProfile::from_family(&self.family, self.audio_enabled, self.video_enabled);
        profile.stage = destination_stage_for(self.timing.state);
        self.pipeline = Some(profile);
        Ok(())
    }

    /// Stops at once; the live pipeline, if any, is drained and torn down.
    pub fn stop(&mut self)
        requires
            old(self).wf(),
        ensures
            final(self).wf(),
            final(self).id == old(self).id,
            final(self).audio_enabled == old(self).audio_enabled,
            final(self).video_enabled == old(self).video_enabled,
            final(self).audio_slot_id == old(self).audio_slot_id,
            final(self).video_slot_id == old(self).video_slot_id,
            final(self).timing.state == State::Stopped,
    {
        self.timing.stop();
        if let Some(p) = &mut self.pipeline {
            p.stage = DestinationPipelineStage::Idle;
        }
    }

    pub fn as_info(&self) -> (r: NodeInfo)
        ensures
            r is Destination,
            r->Destination_0.family == self.family,
            r->Destination_0.audio_slot_id == self.audio_slot_id,
            r->Destination_0.video_slot_id == self.video_slot_id,
            r->Destination_0.cue_time == self.timing.cue_time,
            r->Destination_0.end_time == self.timing.end_time,
            r->Destination_0.state == self.timing.state,
    {
        NodeInfo::Destination(DestinationInfo {
            family: self.family.clone(),
            audio_slot_id: self.audio_slot_id.clone(),
            video_slot_id: self.video_slot_id.clone(),
            cue_time: self.timing.cue_time,
            end_time: self.timing.end_time,
            state: self.timing.state,
        })
    }
}

/// The UDP port that a `Udp` destination sends to.
pub const UDP_EGRESS_PORT: i32 = 5005;

/// What the egress sink of a destination is set up with.
#[derive(Debug, Clone)]
pub struct EgressSettings {
    /// The sink's location: the RTMP URI, or the file name (a numbered
    /// template when files are split by time).
    pub location: Option<String>,
    pub host: Option<String>,
    pub port: Option<i32>,
    /// The longest file, in nanoseconds, when files are split by time.
    pub max_size_time_ns: Option<u64>,
    pub robust_muxing: bool,
}

/// The sink parameters for a family: an RTMP sink at the URI; a UDP sink at
/// the host and the fixed port; a file sink at `base.mp4`, or, when a maximum
/// file duration in milliseconds is given, at `base%05d.mp4` with that
/// duration in nanoseconds and robust muxing; nothing for local playback.
pub fn egress_settings(family: &DestinationFamily) -> (r: EgressSettings)
    ensures
        match *family {
            DestinationFamily::Rtmp { uri } => r.location matches Some(l) && l@ == uri@ && r.host is None && r.port is None
                && r.max_size_time_ns is None && !r.robust_muxing,
            DestinationFamily::Udp { host } => r.location is None && r.host is Some && r.host->0@ == host@
                && r.port == Some(UDP_EGRESS_PORT) && r.max_size_time_ns is None && !r.robust_muxing,
            DestinationFamily::LocalFile { base_name, max_size_time } => r.host is None && r.port is None && match max_size_time {
                Some(ms) => r.location is Some && r.location->0@ == base_name@ + "%05d.mp4"@
                    && r.max_size_time_ns == Some((ms as u64 * 1000000) as u64) && r.robust_muxing,
                None => r.location is Some && r.location->0@ == base_name@ + ".mp4"@ && r.max_size_time_ns is None && !r.robust_muxing,
            },
            DestinationFamily::LocalPlayback => r.location is None && r.host is None && r.port is None
                && r.max_size_time_ns is None && !r.robust_muxing,
        },
{
    match family {
        DestinationFamily::Rtmp { uri } => EgressSettings {
            location: Some(uri.clone()),
            host: None,
            port: None,
            max_size_time_ns: None,
            robust_muxing: false,
        },
        DestinationFamily::Udp { host } => EgressSettings {
            location: None,
            host: Some(host.clone()),
            port: Some(UDP_EGRESS_PORT),
            max_size_time_ns: None,
            robust_muxing: false,
        },
        DestinationFamily::LocalFile { base_name, max_size_time } => match max_size_time {
            Some(ms) => EgressSettings {
                location: Some(crate::text::join2(base_name.as_str(), "%05d.mp4")),
                host: None,
                port: None,
                max_size_time_ns: Some(*ms as u64 * 1000000),
                robust_muxing: true,
            },
            None => EgressSettings {
                location: Some(crate::text::join2(base_name.as_str(), ".mp4")),
                host: None,
                port: None,
                max_size_time_ns: None,
                robust_muxing: false,
            },
        },
        DestinationFamily::LocalPlayback => EgressSettings {
            location: None,
            host: None,
            port: None,
            max_size_time_ns: None,
            robust_muxing: false,
        },
    }
}

} // verus!
